//! The lexer: a single forward pass over the source characters with
//! one-character lookahead, producing one token per call.
//!
//! A sentinel space is prefixed to the source so the first real character can
//! be read by the same peek-then-advance step as every other. The cursor
//! `at` rests on the last consumed character; `next` skips whitespace,
//! advances onto the first character of the token, and dispatches on it.
//! What `next` returns is pinned exactly by [`lex_spec`].
//!
//! Text that no rule recognises — an unknown character, a lone `&` or `|`, a
//! numeric literal with a dot or one too large for a 64-bit integer, an
//! unterminated string — becomes a [`Token::Unknown`], which the parser
//! reports as a diagnostic; the lexer itself never fails.

use vstd::prelude::*;

use crate::text::{chars_eq_str, str_to_chars};
use crate::token::{Token, TokenV, token_view};
use crate::span::Span;

verus! {

broadcast use vstd::std_specs::vec::group_vec_axioms;

/// The character at index `i`, or NUL beyond either end.
pub open spec fn ch(s: Seq<char>, i: int) -> char {
    if 0 <= i < s.len() {
        s[i]
    } else {
        '\0'
    }
}

pub open spec fn is_ws(c: char) -> bool {
    c == ' ' || c == '\t' || c == '\n'
}

pub open spec fn is_digit(c: char) -> bool {
    48 <= c as u32 <= 57
}

pub open spec fn is_ident_start(c: char) -> bool {
    (97 <= c as u32 <= 122) || (65 <= c as u32 <= 90) || c == '_'
}

pub open spec fn is_ident_cont(c: char) -> bool {
    is_ident_start(c) || is_digit(c)
}

/// The first index at or after `i` holding a non-whitespace character (or
/// `i` itself if it is already past the end).
pub open spec fn skip_ws_from(s: Seq<char>, i: int) -> int
    decreases s.len() - i,
        when i >= 0
{
    if i < s.len() && is_ws(s[i]) {
        skip_ws_from(s, i + 1)
    } else {
        i
    }
}

/// The first index at or after `i` that does not continue an identifier.
pub open spec fn ident_end(s: Seq<char>, i: int) -> int
    decreases s.len() - i,
        when i >= 0
{
    if i < s.len() && is_ident_cont(s[i]) {
        ident_end(s, i + 1)
    } else {
        i
    }
}

/// The first index at or after `i` that is neither a digit nor a dot.
pub open spec fn number_end(s: Seq<char>, i: int) -> int
    decreases s.len() - i,
        when i >= 0
{
    if i < s.len() && (is_digit(s[i]) || s[i] == '.') {
        number_end(s, i + 1)
    } else {
        i
    }
}

/// The first index at or after `i` holding a closing quote, or the length if
/// the string is unterminated.
pub open spec fn string_end(s: Seq<char>, i: int) -> int
    decreases s.len() - i,
        when i >= 0
{
    if i >= s.len() {
        s.len() as int
    } else if s[i] == '"' {
        i
    } else {
        string_end(s, i + 1)
    }
}

/// The keyword a lexeme denotes, or an identifier token holding it.
pub open spec fn keyword_token(text: Seq<char>) -> TokenV {
    if text == "let"@ {
        TokenV::Let
    } else if text == "const"@ {
        TokenV::Const
    } else if text == "pub"@ {
        TokenV::Pub
    } else if text == "use"@ {
        TokenV::Use
    } else if text == "func"@ {
        TokenV::Func
    } else if text == "enum"@ {
        TokenV::Enum
    } else if text == "struct"@ {
        TokenV::Struct
    } else if text == "if"@ {
        TokenV::If
    } else if text == "else"@ {
        TokenV::Else
    } else if text == "loop"@ {
        TokenV::Loop
    } else if text == "break"@ {
        TokenV::Break
    } else if text == "true"@ {
        TokenV::True
    } else if text == "false"@ {
        TokenV::False
    } else if text == "nil"@ {
        TokenV::Nil
    } else {
        TokenV::Identifier(text)
    }
}

/// Whether every character of `text` is a decimal digit.
pub open spec fn all_digits(text: Seq<char>) -> bool {
    forall|j: int| 0 <= j < text.len() ==> is_digit(#[trigger] text[j])
}

/// The value of a run of decimal digits, most significant first.
pub open spec fn digits_value(text: Seq<char>) -> int
    decreases text.len(),
{
    if text.len() == 0 {
        0
    } else {
        digits_value(text.drop_last()) * 10 + (text.last() as u32 - 48)
    }
}

/// The token a numeric lexeme denotes: its value if it is all digits and
/// fits a 64-bit signed integer, `Unknown` otherwise (a fractional or
/// oversized literal is surfaced as a diagnostic by the parser).
pub open spec fn number_token(text: Seq<char>) -> TokenV {
    if all_digits(text) && digits_value(text) <= i64::MAX {
        TokenV::Number(digits_value(text) as i64)
    } else {
        TokenV::Unknown
    }
}

/// What one call of [`Lexer::next`] starting with the cursor on `at`
/// produces: the token and the new cursor position.
pub open spec fn lex_spec(s: Seq<char>, at: int) -> (TokenV, int) {
    let w0 = skip_ws_from(s, at + 1);
    let w = if w0 > s.len() {
        s.len() as int
    } else {
        w0
    };
    let c = ch(s, w);
    if w >= s.len() {
        // end of input is a position, never a character: an embedded NUL in
        // the source is an unknown character, not an early Eof
        (TokenV::Eof, w)
    } else if is_ident_start(c) {
        let e = ident_end(s, w + 1);
        (keyword_token(s.subrange(w, e)), e - 1)
    } else if is_digit(c) {
        let e = number_end(s, w + 1);
        (number_token(s.subrange(w, e)), e - 1)
    } else if c == '"' {
        let q = string_end(s, w + 1);
        if q < s.len() {
            (TokenV::String(s.subrange(w + 1, q)), q)
        } else {
            (TokenV::Unknown, s.len() - 1)
        }
    } else if c == '-' {
        if ch(s, w + 1) == '>' {
            (TokenV::Arrow, w + 1)
        } else if ch(s, w + 1) == '=' {
            (TokenV::SubEq, w + 1)
        } else {
            (TokenV::Sub, w)
        }
    } else if c == '=' {
        if ch(s, w + 1) == '=' {
            (TokenV::Eq, w + 1)
        } else {
            (TokenV::Assign, w)
        }
    } else if c == '>' {
        if ch(s, w + 1) == '=' {
            (TokenV::GtEq, w + 1)
        } else {
            (TokenV::Gt, w)
        }
    } else if c == '<' {
        if ch(s, w + 1) == '=' {
            (TokenV::LtEq, w + 1)
        } else {
            (TokenV::Lt, w)
        }
    } else if c == '.' {
        (TokenV::Dot, w)
    } else if c == '?' {
        (TokenV::Question, w)
    } else if c == '@' {
        (TokenV::At, w)
    } else if c == ',' {
        (TokenV::Comma, w)
    } else if c == ';' {
        (TokenV::Semicolon, w)
    } else if c == '!' {
        if ch(s, w + 1) == '=' {
            (TokenV::NotEq, w + 1)
        } else {
            (TokenV::Not, w)
        }
    } else if c == '+' {
        if ch(s, w + 1) == '=' {
            (TokenV::AddEq, w + 1)
        } else {
            (TokenV::Add, w)
        }
    } else if c == '*' {
        if ch(s, w + 1) == '*' {
            if ch(s, w + 2) == '=' {
                (TokenV::PowEq, w + 2)
            } else {
                (TokenV::Pow, w + 1)
            }
        } else if ch(s, w + 1) == '=' {
            (TokenV::MulEq, w + 1)
        } else {
            (TokenV::Mul, w)
        }
    } else if c == '/' {
        if ch(s, w + 1) == '=' {
            (TokenV::DivEq, w + 1)
        } else {
            (TokenV::Div, w)
        }
    } else if c == '%' {
        if ch(s, w + 1) == '=' {
            (TokenV::ModEq, w + 1)
        } else {
            (TokenV::Mod, w)
        }
    } else if c == '&' {
        if ch(s, w + 1) == '&' {
            (TokenV::And, w + 1)
        } else {
            (TokenV::Unknown, w)
        }
    } else if c == '|' {
        if ch(s, w + 1) == '|' {
            (TokenV::Or, w + 1)
        } else {
            (TokenV::Unknown, w)
        }
    } else if c == '(' {
        (TokenV::LParen, w)
    } else if c == ')' {
        (TokenV::RParen, w)
    } else if c == '{' {
        (TokenV::LBrace, w)
    } else if c == '}' {
        (TokenV::RBrace, w)
    } else if c == '[' {
        (TokenV::LBracket, w)
    } else if c == ']' {
        (TokenV::RBracket, w)
    } else {
        (TokenV::Unknown, w)
    }
}


/// The first non-whitespace position never precedes where the scan began,
/// and never runs past one step beyond the end.
pub proof fn lemma_skip_ws_bounds(s: Seq<char>, i: int)
    requires
        i >= 0,
    ensures
        skip_ws_from(s, i) >= i,
        skip_ws_from(s, i) <= s.len() || skip_ws_from(s, i) == i,
    decreases s.len() - i,
{
    if i < s.len() && is_ws(s[i]) {
        lemma_skip_ws_bounds(s, i + 1);
    }
}

pub proof fn lemma_ident_end_bounds(s: Seq<char>, i: int)
    requires
        0 <= i <= s.len(),
    ensures
        i <= ident_end(s, i) <= s.len(),
    decreases s.len() - i,
{
    if i < s.len() && is_ident_cont(s[i]) {
        lemma_ident_end_bounds(s, i + 1);
    }
}

pub proof fn lemma_number_end_bounds(s: Seq<char>, i: int)
    requires
        0 <= i <= s.len(),
    ensures
        i <= number_end(s, i) <= s.len(),
    decreases s.len() - i,
{
    if i < s.len() && (is_digit(s[i]) || s[i] == '.') {
        lemma_number_end_bounds(s, i + 1);
    }
}

pub proof fn lemma_string_end_bounds(s: Seq<char>, i: int)
    requires
        0 <= i <= s.len(),
    ensures
        i <= string_end(s, i) <= s.len(),
    decreases s.len() - i,
{
    if i < s.len() && s[i] != '"' {
        lemma_string_end_bounds(s, i + 1);
    }
}

pub struct Lexer {
    pub at: usize,
    pub tok_start: usize,
    pub source: Vec<char>,
}

impl Lexer {
    pub open spec fn wf(&self) -> bool {
        &&& self.at <= self.source@.len()
        &&& self.source@.len() >= 1
    }

    /// Build a lexer over `source`, prefixing the sentinel space.
    pub fn new(source: &str) -> (l: Lexer)
        ensures
            l.source@ == seq![' '] + source@,
            l.at == 0,
            l.wf(),
    {
        let mut chars: Vec<char> = Vec::new();
        chars.push(' ');
        let rest = str_to_chars(source);
        let mut i: usize = 0;
        while i < rest.len()
            invariant
                i <= rest@.len(),
                rest@ == source@,
                chars@ == seq![' '] + rest@.subrange(0, i as int),
            decreases rest@.len() - i,
        {
            chars.push(rest[i]);
            proof {
                assert(chars@ =~= seq![' '] + rest@.subrange(0, i + 1));
            }
            i = i + 1;
        }
        proof {
            assert(chars@ =~= seq![' '] + source@);
        }
        Lexer { at: 0, tok_start: 0, source: chars }
    }

    fn at_char(&self) -> (c: char)
        ensures
            c == ch(self.source@, self.at as int),
    {
        let lim = self.source.len();
        if self.at >= lim {
            '\0'
        } else {
            self.source[self.at]
        }
    }

    fn peek(&self) -> (c: char)
        ensures
            c == ch(self.source@, self.at + 1),
    {
        let lim = self.source.len();
        if self.at >= lim || 1 >= lim - self.at {
            '\0'
        } else {
            self.source[self.at + 1]
        }
    }

    fn peek_n(&self, n: usize) -> (c: char)
        ensures
            c == ch(self.source@, self.at + n),
    {
        let lim = self.source.len();
        if self.at >= lim || n >= lim - self.at {
            '\0'
        } else {
            self.source[self.at + n]
        }
    }

    /// Whether only the end of the source remains.
    pub fn at_end(&self) -> (r: bool)
        requires
            self.wf(),
        ensures
            r == (self.at + 1 >= self.source@.len()),
    {
        self.at >= self.source.len() - 1
    }

    fn advance(&mut self) -> (c: char)
        requires
            old(self).wf(),
        ensures
            final(self).wf(),
            final(self).source@ == old(self).source@,
            final(self).tok_start == old(self).tok_start,
            final(self).at == if old(self).at < old(self).source@.len() {
                old(self).at + 1
            } else {
                old(self).at as int
            },
            c == ch(final(self).source@, final(self).at as int),
    {
        if self.at < self.source.len() {
            self.at = self.at + 1;
        }
        self.at_char()
    }

    fn pick(&mut self, c: char) -> (r: bool)
        requires
            old(self).wf(),
            c != '\0',
        ensures
            final(self).wf(),
            final(self).source@ == old(self).source@,
            final(self).tok_start == old(self).tok_start,
            r == (ch(old(self).source@, old(self).at + 1) == c),
            r ==> final(self).at == old(self).at + 1,
            !r ==> final(self).at == old(self).at,
    {
        if self.peek() == c {
            proof {
                assert(old(self).at < old(self).source@.len());
            }
            self.advance();
            true
        } else {
            false
        }
    }

    fn skip_whitespace(&mut self)
        requires
            old(self).wf(),
        ensures
            final(self).wf(),
            final(self).source@ == old(self).source@,
            final(self).tok_start == old(self).tok_start,
            final(self).at + 1 == skip_ws_from(old(self).source@, old(self).at + 1),
    {
        let ghost s = self.source@;
        let ghost w = skip_ws_from(s, old(self).at + 1);
        loop
            invariant
                self.wf(),
                self.source@ == s,
                self.tok_start == old(self).tok_start,
                self.at >= old(self).at,
                skip_ws_from(s, self.at + 1) == w,
            ensures
                self.wf(),
                self.source@ == s,
                self.tok_start == old(self).tok_start,
                self.at + 1 == w,
            decreases s.len() - self.at,
        {
            let more = self.pick(' ') || self.pick('\t') || self.pick('\n');
            if !more {
                proof {
                    assert(!is_ws(ch(s, self.at + 1)));
                }
                break;
            }
        }
    }

    fn eat_through(&mut self, c: char) -> (closed: bool)
        requires
            old(self).wf(),
            old(self).at < old(self).source@.len(),
            c == '"',
        ensures
            final(self).wf(),
            final(self).source@ == old(self).source@,
            final(self).tok_start == old(self).tok_start,
            final(self).at >= old(self).at,
            ({
                let q = string_end(old(self).source@, old(self).at + 1);
                if q < old(self).source@.len() {
                    closed && final(self).at == q
                } else {
                    !closed && final(self).at == old(self).source@.len() - 1
                }
            }),
    {
        let ghost s = self.source@;
        let ghost q = string_end(s, old(self).at + 1);
        let n = self.source.len();
        loop
            invariant
                self.wf(),
                c == '"',
                n == s.len(),
                s == old(self).source@,
                self.source@ == s,
                self.tok_start == old(self).tok_start,
                old(self).at <= self.at < s.len(),
                q == string_end(s, old(self).at + 1),
                string_end(s, self.at + 1) == q,
            ensures
                self.wf(),
                self.source@ == s,
                self.tok_start == old(self).tok_start,
                self.at >= old(self).at,
                if q < s.len() {
                    self.at == q
                } else {
                    self.at == s.len() - 1
                },
            decreases s.len() - self.at,
        {
            if self.pick(c) {
                proof {
                    assert(ch(s, self.at as int) == '"');
                    assert(string_end(s, self.at as int) == self.at as int);
                }
                return true;
            }
            if self.at >= n - 1 {
                proof {
                    assert(string_end(s, self.at + 1) == s.len());
                }
                return false;
            }
            self.advance();
        }
    }

    /// The characters from `tok_start` through `at`, inclusive.
    fn lexeme(&self) -> (r: Vec<char>)
        requires
            self.wf(),
            self.tok_start <= self.at < self.source@.len(),
        ensures
            r@ == self.source@.subrange(self.tok_start as int, self.at + 1),
    {
        let mut r: Vec<char> = Vec::new();
        let mut i: usize = self.tok_start;
        loop
            invariant_except_break
                self.wf(),
                self.tok_start <= i <= self.at,
                self.at < self.source@.len(),
                r@ == self.source@.subrange(self.tok_start as int, i as int),
            ensures
                r@ == self.source@.subrange(self.tok_start as int, self.at + 1),
            decreases self.at - i,
        {
            r.push(self.source[i]);
            proof {
                assert(r@ =~= self.source@.subrange(self.tok_start as int, i + 1));
            }
            if i == self.at {
                break;
            }
            i = i + 1;
        }
        r
    }

    fn eq_or(&mut self, without: Token, with: Token) -> (t: Token)
        requires
            old(self).wf(),
        ensures
            final(self).wf(),
            final(self).source@ == old(self).source@,
            final(self).tok_start == old(self).tok_start,
            if ch(old(self).source@, old(self).at + 1) == '=' {
                t == with && final(self).at == old(self).at + 1
            } else {
                t == without && final(self).at == old(self).at
            },
    {
        if self.pick('=') {
            with
        } else {
            without
        }
    }

    fn identifier(&mut self) -> (t: Token)
        requires
            old(self).wf(),
            old(self).tok_start == old(self).at,
            old(self).at < old(self).source@.len(),
            is_ident_start(ch(old(self).source@, old(self).at as int)),
        ensures
            final(self).wf(),
            final(self).source@ == old(self).source@,
            final(self).tok_start == old(self).tok_start,
            final(self).at == ident_end(old(self).source@, old(self).at + 1) - 1,
            final(self).at >= old(self).at,
            token_view(t) == keyword_token(
                old(self).source@.subrange(
                    old(self).at as int,
                    ident_end(old(self).source@, old(self).at + 1),
                ),
            ),
    {
        let ghost s = self.source@;
        let ghost e = ident_end(s, old(self).at + 1);
        loop
            invariant
                self.wf(),
                self.source@ == s,
                self.tok_start == old(self).tok_start,
                old(self).at <= self.at < s.len(),
                ident_end(s, self.at + 1) == e,
            ensures
                self.wf(),
                self.source@ == s,
                self.tok_start == old(self).tok_start,
                old(self).at <= self.at < s.len(),
                self.at == e - 1,
            decreases s.len() - self.at,
        {
            let c = self.peek();
            let cu = c as u32;
            let cont = (97 <= cu && cu <= 122) || (65 <= cu && cu <= 90) || c == '_' || (48 <= cu
                && cu <= 57);
            proof {
                assert(cont == is_ident_cont(ch(s, self.at + 1)));
            }
            if !cont {
                proof {
                    assert(ident_end(s, self.at + 1) == self.at + 1);
                }
                break;
            }
            proof {
                assert(self.at + 1 < s.len());
            }
            self.advance();
        }
        let text = self.lexeme();
        proof {
            assert(text@ == s.subrange(old(self).at as int, e));
        }
        if chars_eq_str(&text, "let") {
            Token::Let
        } else if chars_eq_str(&text, "const") {
            Token::Const
        } else if chars_eq_str(&text, "pub") {
            Token::Pub
        } else if chars_eq_str(&text, "use") {
            Token::Use
        } else if chars_eq_str(&text, "func") {
            Token::Func
        } else if chars_eq_str(&text, "enum") {
            Token::Enum
        } else if chars_eq_str(&text, "struct") {
            Token::Struct
        } else if chars_eq_str(&text, "if") {
            Token::If
        } else if chars_eq_str(&text, "else") {
            Token::Else
        } else if chars_eq_str(&text, "loop") {
            Token::Loop
        } else if chars_eq_str(&text, "break") {
            Token::Break
        } else if chars_eq_str(&text, "true") {
            Token::True
        } else if chars_eq_str(&text, "false") {
            Token::False
        } else if chars_eq_str(&text, "nil") {
            Token::Nil
        } else {
            Token::Identifier(text)
        }
    }

    fn number(&mut self) -> (t: Token)
        requires
            old(self).wf(),
            old(self).tok_start == old(self).at,
            old(self).at < old(self).source@.len(),
            is_digit(ch(old(self).source@, old(self).at as int)),
        ensures
            final(self).wf(),
            final(self).source@ == old(self).source@,
            final(self).tok_start == old(self).tok_start,
            final(self).at == number_end(old(self).source@, old(self).at + 1) - 1,
            final(self).at >= old(self).at,
            token_view(t) == number_token(
                old(self).source@.subrange(
                    old(self).at as int,
                    number_end(old(self).source@, old(self).at + 1),
                ),
            ),
    {
        let ghost s = self.source@;
        let ghost e = number_end(s, old(self).at + 1);
        loop
            invariant
                self.wf(),
                self.source@ == s,
                self.tok_start == old(self).tok_start,
                old(self).at <= self.at < s.len(),
                number_end(s, self.at + 1) == e,
            ensures
                self.wf(),
                self.source@ == s,
                self.tok_start == old(self).tok_start,
                old(self).at <= self.at < s.len(),
                self.at == e - 1,
            decreases s.len() - self.at,
        {
            let c = self.peek();
            let cu = c as u32;
            let cont = (48 <= cu && cu <= 57) || c == '.';
            proof {
                assert(cont == (is_digit(ch(s, self.at + 1)) || ch(s, self.at + 1) == '.'));
            }
            if !cont {
                proof {
                    assert(number_end(s, self.at + 1) == self.at + 1);
                }
                break;
            }
            proof {
                assert(self.at + 1 < s.len());
            }
            self.advance();
        }
        let text = self.lexeme();
        proof {
            assert(text@ == s.subrange(old(self).at as int, e));
        }
        match parse_digits(&text) {
            Some(n) => Token::Number(n),
            None => Token::Unknown,
        }
    }

    fn lex_string(&mut self) -> (t: Token)
        requires
            old(self).wf(),
            old(self).tok_start == old(self).at,
            old(self).at < old(self).source@.len(),
            ch(old(self).source@, old(self).at as int) == '"',
        ensures
            final(self).wf(),
            final(self).source@ == old(self).source@,
            final(self).tok_start == old(self).tok_start,
            final(self).at >= old(self).at,
            ({
                let q = string_end(old(self).source@, old(self).at + 1);
                if q < old(self).source@.len() {
                    final(self).at == q && token_view(t) == TokenV::String(
                        old(self).source@.subrange(old(self).at + 1, q),
                    )
                } else {
                    final(self).at == old(self).source@.len() - 1 && t == Token::Unknown
                }
            }),
    {
        let ghost s = self.source@;
        let ghost q = string_end(s, old(self).at + 1);
        let start = self.at;
        let closed = self.eat_through('"');
        if !closed {
            return Token::Unknown;
        }
        proof {
            lemma_string_end_bounds(s, start + 1);
        }
        // The cursor rests on the closing quote; the content is everything
        // strictly between the quotes.
        let mut content: Vec<char> = Vec::new();
        let mut i: usize = start + 1;
        let end = self.at;
        while i < end
            invariant
                self.wf(),
                self.source@ == s,
                start + 1 <= i <= end,
                end == self.at,
                self.at < s.len(),
                content@ == s.subrange(start + 1, i as int),
            decreases end - i,
        {
            content.push(self.source[i]);
            proof {
                assert(content@ =~= s.subrange(start + 1, i + 1));
            }
            i = i + 1;
        }
        proof {
            assert(content@ == s.subrange(start + 1, q));
        }
        Token::String(content)
    }

    /// Produce the next token and its span. Callable repeatedly: once the
    /// source is exhausted it keeps returning `Eof`, and the cursor never
    /// moves backwards.
    pub fn next(&mut self) -> (r: (Token, Span))
        requires
            old(self).wf(),
        ensures
            final(self).wf(),
            final(self).source@ == old(self).source@,
            token_view(r.0) == lex_spec(old(self).source@, old(self).at as int).0,
            final(self).at == lex_spec(old(self).source@, old(self).at as int).1,
            final(self).at >= old(self).at,
            r.1.start + 1 == final(self).tok_start,
            r.1.end == (if final(self).at + 1 > old(self).source@.len() {
                old(self).source@.len() - 1
            } else {
                final(self).at as int
            }),
            // once at the end, always Eof with the cursor unmoved
            old(self).at == old(self).source@.len() ==> r.0 == Token::Eof && final(self).at == old(
                self,
            ).at,
    {
        let ghost s = self.source@;
        proof {
            lemma_skip_ws_bounds(s, old(self).at + 1);
        }
        self.skip_whitespace();
        let nxt = self.advance();
        proof {
            let w0 = skip_ws_from(s, old(self).at + 1);
            assert(self.at == if w0 > s.len() {
                s.len() as int
            } else {
                w0
            });
            assert(nxt == ch(s, self.at as int));
        }
        self.tok_start = self.at;
        let ghost w = self.at as int;
        let cu = nxt as u32;
        let t: Token = if self.at >= self.source.len() {
            Token::Eof
        } else if (97 <= cu && cu <= 122) || (65 <= cu && cu <= 90) || nxt == '_' {
            proof {
                assert(is_ident_start(ch(s, w)));
                lemma_ident_end_bounds(s, w + 1);
            }
            self.identifier()
        } else if 48 <= cu && cu <= 57 {
            proof {
                assert(is_digit(ch(s, w)));
                lemma_number_end_bounds(s, w + 1);
            }
            self.number()
        } else if nxt == '"' {
            proof {
                lemma_string_end_bounds(s, w + 1);
            }
            self.lex_string()
        } else if nxt == '-' {
            if self.pick('>') {
                Token::Arrow
            } else {
                self.eq_or(Token::Sub, Token::SubEq)
            }
        } else if nxt == '=' {
            self.eq_or(Token::Assign, Token::Eq)
        } else if nxt == '>' {
            self.eq_or(Token::Gt, Token::GtEq)
        } else if nxt == '<' {
            self.eq_or(Token::Lt, Token::LtEq)
        } else if nxt == '.' {
            Token::Dot
        } else if nxt == '?' {
            Token::Question
        } else if nxt == '@' {
            Token::At
        } else if nxt == ',' {
            Token::Comma
        } else if nxt == ';' {
            Token::Semicolon
        } else if nxt == '!' {
            self.eq_or(Token::Not, Token::NotEq)
        } else if nxt == '+' {
            self.eq_or(Token::Add, Token::AddEq)
        } else if nxt == '*' {
            if self.pick('*') {
                self.eq_or(Token::Pow, Token::PowEq)
            } else {
                self.eq_or(Token::Mul, Token::MulEq)
            }
        } else if nxt == '/' {
            self.eq_or(Token::Div, Token::DivEq)
        } else if nxt == '%' {
            self.eq_or(Token::Mod, Token::ModEq)
        } else if nxt == '&' {
            if self.pick('&') {
                Token::And
            } else {
                Token::Unknown
            }
        } else if nxt == '|' {
            if self.pick('|') {
                Token::Or
            } else {
                Token::Unknown
            }
        } else if nxt == '(' {
            Token::LParen
        } else if nxt == ')' {
            Token::RParen
        } else if nxt == '{' {
            Token::LBrace
        } else if nxt == '}' {
            Token::RBrace
        } else if nxt == '[' {
            Token::LBracket
        } else if nxt == ']' {
            Token::RBracket
        } else {
            Token::Unknown
        };
        let start = self.tok_start - 1;
        let end = if self.at >= self.source.len() {
            self.source.len() - 1
        } else {
            self.at
        };
        (t, Span::new(start, end))
    }
}

/// Parse a run of characters as a decimal number: its value if every
/// character is a digit and the value fits, `None` otherwise.
pub fn parse_digits(text: &Vec<char>) -> (r: Option<i64>)
    ensures
        r == if all_digits(text@) && digits_value(text@) <= i64::MAX {
            Some(digits_value(text@) as i64)
        } else {
            Option::<i64>::None
        },
{
    let n = text.len();
    let mut val: i64 = 0;
    let mut i: usize = 0;
    proof {
        assert(text@.subrange(0, 0) =~= Seq::<char>::empty());
    }
    while i < n
        invariant
            i <= n,
            n == text@.len(),
            all_digits(text@.subrange(0, i as int)),
            0 <= val,
            val == digits_value(text@.subrange(0, i as int)),
        decreases n - i,
    {
        let c = text[i];
        let cu = c as u32;
        if !(48 <= cu && cu <= 57) {
            proof {
                assert(!is_digit(text@[i as int]));
            }
            return None;
        }
        let d = (cu - 48) as i64;
        proof {
            assert(text@.subrange(0, i + 1).drop_last() =~= text@.subrange(0, i as int));
            assert(text@.subrange(0, i + 1).last() == text@[i as int]);
        }
        if val > (i64::MAX - d) / 10 {
            proof {
                lemma_digits_overflow(text@, i as int, val as int, d as int);
            }
            return None;
        }
        proof {
            assert(val * 10 + d <= i64::MAX) by (nonlinear_arith)
                requires
                    0 <= d <= 9,
                    0 <= val <= (i64::MAX - d) / 10,
            ;
        }
        val = val * 10 + d;
        i = i + 1;
    }
    proof {
        assert(text@.subrange(0, n as int) =~= text@);
    }
    Some(val)
}

/// Once some digit prefix exceeds the representable range, the whole run
/// does: appending digits never shrinks the value.
proof fn lemma_digits_overflow(text: Seq<char>, i: int, val: int, d: int)
    requires
        0 <= i < text.len(),
        all_digits(text.subrange(0, i)),
        is_digit(text[i]),
        val == digits_value(text.subrange(0, i)),
        0 <= val,
        0 <= d <= 9,
        d == text[i] as u32 - 48,
        val > (i64::MAX - d) / 10,
    ensures
        !(all_digits(text) && digits_value(text) <= i64::MAX),
{
    if all_digits(text) {
        assert(text.subrange(0, i + 1).drop_last() =~= text.subrange(0, i));
        assert(text.subrange(0, i + 1).last() == text[i]);
        assert(digits_value(text.subrange(0, i + 1)) == val * 10 + d);
        assert(val * 10 + d > i64::MAX) by (nonlinear_arith)
            requires
                0 <= d <= 9,
                val > (i64::MAX - d) / 10,
        ;
        lemma_digits_monotone(text, i + 1);
        assert(digits_value(text) >= val * 10 + d);
    }
}

/// The value of a digit run is at least the value of any of its prefixes.
proof fn lemma_digits_monotone(text: Seq<char>, k: int)
    requires
        all_digits(text),
        0 <= k <= text.len(),
    ensures
        digits_value(text) >= digits_value(text.subrange(0, k)),
        digits_value(text.subrange(0, k)) >= 0,
    decreases text.len() - k,
{
    lemma_digits_nonneg(text.subrange(0, k));
    if k < text.len() {
        assert(text.subrange(0, k + 1).drop_last() =~= text.subrange(0, k));
        assert(is_digit(text[k]));
        lemma_digits_nonneg(text.subrange(0, k));
        assert(digits_value(text.subrange(0, k + 1)) == digits_value(text.subrange(0, k)) * 10 + (
        text[k] as u32 - 48));
        assert(digits_value(text.subrange(0, k)) * 10 >= digits_value(text.subrange(0, k)))
            by (nonlinear_arith)
            requires
                digits_value(text.subrange(0, k)) >= 0,
        ;
        lemma_digits_monotone(text, k + 1);
    } else {
        assert(text.subrange(0, k) =~= text);
    }
}

/// A run of digits has a non-negative value.
proof fn lemma_digits_nonneg(text: Seq<char>)
    requires
        all_digits(text),
    ensures
        digits_value(text) >= 0,
    decreases text.len(),
{
    if text.len() > 0 {
        assert(all_digits(text.drop_last())) by {
            assert(forall|j: int|
                0 <= j < text.len() - 1 ==> text.drop_last()[j] == #[trigger] text[j]);
        }
        lemma_digits_nonneg(text.drop_last());
        assert(is_digit(text.last()));
        assert(digits_value(text.drop_last()) * 10 >= 0) by (nonlinear_arith)
            requires
                digits_value(text.drop_last()) >= 0,
        ;
    }
}

} // verus!
