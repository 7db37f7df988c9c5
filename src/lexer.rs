//! The lexer: source text to tokens.
use vstd::prelude::*;
use vstd::string::*;

verus! {

/// Whether `c` has Unicode's Alphabetic property.
pub uninterp spec fn alphabetic(c: char) -> bool;

/// Whether `c` is alphabetic or numeric in Unicode's sense.
pub uninterp spec fn alphanumeric(c: char) -> bool;

/// Whether `c` has Unicode's White_Space property.
pub uninterp spec fn white_space(c: char) -> bool;

/// Relies on `char::is_alphabetic`, a property of the character alone.
#[verifier::external_body]
fn is_alpha(c: char) -> (r: bool)
    ensures
        r == alphabetic(c),
{
    c.is_alphabetic()
}

/// Relies on `char::is_alphanumeric`, a property of the character alone.
#[verifier::external_body]
fn is_alnum(c: char) -> (r: bool)
    ensures
        r == alphanumeric(c),
{
    c.is_alphanumeric()
}

/// Relies on `char::is_whitespace`, a property of the character alone.
#[verifier::external_body]
fn is_space(c: char) -> (r: bool)
    ensures
        r == white_space(c),
{
    c.is_whitespace()
}

/// An ASCII letter.
pub open spec fn ascii_letter(c: char) -> bool {
    ('a' <= c <= 'z') || ('A' <= c <= 'Z')
}

/// An alphabetic character: an ASCII letter, or a character outside ASCII
/// with Unicode's Alphabetic property.
pub open spec fn letter(c: char) -> bool {
    if (c as u32) < 128 {
        ascii_letter(c)
    } else {
        alphabetic(c)
    }
}

/// An alphabetic or numeric character: an ASCII letter or digit, or a
/// character outside ASCII that Unicode calls alphabetic or numeric.
pub open spec fn letter_or_digit(c: char) -> bool {
    if (c as u32) < 128 {
        ascii_letter(c) || ('0' <= c <= '9')
    } else {
        alphanumeric(c)
    }
}

/// A whitespace character: space, tab, line feed, vertical tab, form feed
/// and carriage return in ASCII, or a character outside ASCII with Unicode's
/// White_Space property.
pub open spec fn space_char(c: char) -> bool {
    if (c as u32) < 128 {
        c == ' ' || c == '\t' || c == '\n' || c == '\u{b}' || c == '\u{c}' || c == '\r'
    } else {
        white_space(c)
    }
}

pub(crate) fn is_letter(c: char) -> (r: bool)
    ensures
        r == letter(c),
{
    if (c as u32) < 128 {
        ('a' <= c && c <= 'z') || ('A' <= c && c <= 'Z')
    } else {
        is_alpha(c)
    }
}

pub(crate) fn is_letter_or_digit(c: char) -> (r: bool)
    ensures
        r == letter_or_digit(c),
{
    if (c as u32) < 128 {
        ('a' <= c && c <= 'z') || ('A' <= c && c <= 'Z') || ('0' <= c && c <= '9')
    } else {
        is_alnum(c)
    }
}

pub(crate) fn is_space_char(c: char) -> (r: bool)
    ensures
        r == space_char(c),
{
    if (c as u32) < 128 {
        c == ' ' || c == '\t' || c == '\n' || c == '\u{b}' || c == '\u{c}' || c == '\r'
    } else {
        is_space(c)
    }
}

/// A token of the source language.
#[derive(Debug, Clone, PartialEq, Eq)]
pub enum Token {
    Ident(String),
    Number(i32),
    Str(String),
    LBrace,
    RBrace,
    LParen,
    RParen,
    Colon,
    Comma,
    Operator(String),
    Eof,
}

/// A token, with its text as a sequence of characters.
pub enum TokenView {
    Ident(Seq<char>),
    Number(i32),
    Str(Seq<char>),
    LBrace,
    RBrace,
    LParen,
    RParen,
    Colon,
    Comma,
    Operator(Seq<char>),
    Eof,
}

impl View for Token {
    type V = TokenView;

    open spec fn view(&self) -> TokenView {
        match self {
            Token::Ident(s) => TokenView::Ident(s@),
            Token::Number(n) => TokenView::Number(*n),
            Token::Str(s) => TokenView::Str(s@),
            Token::LBrace => TokenView::LBrace,
            Token::RBrace => TokenView::RBrace,
            Token::LParen => TokenView::LParen,
            Token::RParen => TokenView::RParen,
            Token::Colon => TokenView::Colon,
            Token::Comma => TokenView::Comma,
            Token::Operator(s) => TokenView::Operator(s@),
            Token::Eof => TokenView::Eof,
        }
    }
}

/// The views of a list of tokens.
pub open spec fn views(ts: Seq<Token>) -> Seq<TokenView> {
    ts.map_values(|t: Token| t@)
}

/// Errors of the lexer.
#[derive(Debug, Clone, PartialEq, Eq)]
pub enum LexError {
    /// A run of digits whose value exceeds `i32::MAX`; the field is the
    /// position of its first digit.
    NumberOverflow(usize),
    /// A string literal without its closing quote, opened at the position.
    UnterminatedString(usize),
    /// A character that starts no token, at the position.
    UnexpectedChar(char, usize),
}

pub open spec fn is_digit(c: char) -> bool {
    '0' <= c <= '9'
}

pub open spec fn is_ident_char(c: char) -> bool {
    letter_or_digit(c) || c == '_'
}

pub open spec fn is_ident_start(c: char) -> bool {
    letter(c) || c == '_'
}

/// The end of the run of decimal digits from `i` on.
pub open spec fn digits_end(s: Seq<char>, i: int) -> int
    decreases s.len() - i,
{
    if i < 0 || i >= s.len() || !is_digit(s[i]) {
        i
    } else {
        digits_end(s, i + 1)
    }
}

/// The end of the run of identifier characters from `i` on.
pub open spec fn ident_end(s: Seq<char>, i: int) -> int
    decreases s.len() - i,
{
    if i < 0 || i >= s.len() || !is_ident_char(s[i]) {
        i
    } else {
        ident_end(s, i + 1)
    }
}

/// The position of the first `"` from `i` on, or the end of the input.
pub open spec fn quote_end(s: Seq<char>, i: int) -> int
    decreases s.len() - i,
{
    if i < 0 || i >= s.len() || s[i] == '"' {
        i
    } else {
        quote_end(s, i + 1)
    }
}

/// The decimal value of the digits `s[i..j]`.
pub open spec fn digits_value(s: Seq<char>, i: int, j: int) -> int
    decreases j - i,
{
    if j <= i {
        0
    } else {
        digits_value(s, i, j - 1) * 10 + (s[j - 1] as int - '0' as int)
    }
}

/// The operator that starts at `i` with the character `c`.
pub open spec fn operator_at(s: Seq<char>, i: int, c: char) -> (TokenView, int) {
    if (c == '>' || c == '<' || c == '=') && i + 1 < s.len() && s[i + 1] == '=' {
        (TokenView::Operator(seq![c, '=']), i + 2)
    } else {
        (TokenView::Operator(seq![c]), i + 1)
    }
}

/// The next token at or after position `i`, with the position after it.
/// Whitespace is skipped; the end of the input gives `Eof`.
pub open spec fn next_token_spec(s: Seq<char>, i: int) -> Result<(TokenView, int), LexError>
    decreases s.len() - i,
{
    if i < 0 || i >= s.len() {
        Ok((TokenView::Eof, i))
    } else {
        let c = s[i];
        if c == '{' {
            Ok((TokenView::LBrace, i + 1))
        } else if c == '}' {
            Ok((TokenView::RBrace, i + 1))
        } else if c == '(' {
            Ok((TokenView::LParen, i + 1))
        } else if c == ')' {
            Ok((TokenView::RParen, i + 1))
        } else if c == ':' {
            Ok((TokenView::Colon, i + 1))
        } else if c == ',' {
            Ok((TokenView::Comma, i + 1))
        } else if is_digit(c) {
            let j = digits_end(s, i);
            if digits_value(s, i, j) > i32::MAX {
                Err(LexError::NumberOverflow(i as usize))
            } else {
                Ok((TokenView::Number(digits_value(s, i, j) as i32), j))
            }
        } else if is_ident_start(c) {
            let j = ident_end(s, i + 1);
            Ok((TokenView::Ident(s.subrange(i, j)), j))
        } else if space_char(c) {
            next_token_spec(s, i + 1)
        } else if c == '>' || c == '<' || c == '=' || c == '+' || c == '-' || c == '*' || c == '/' {
            Ok(operator_at(s, i, c))
        } else if c == '"' {
            let j = quote_end(s, i + 1);
            if j >= s.len() {
                Err(LexError::UnterminatedString(i as usize))
            } else {
                Ok((TokenView::Str(s.subrange(i + 1, j)), j + 1))
            }
        } else {
            Err(LexError::UnexpectedChar(c, i as usize))
        }
    }
}

/// The tokens of `s` from position `i` to the end, without the final `Eof`.
pub open spec fn lex_from(s: Seq<char>, i: int) -> Result<Seq<TokenView>, LexError>
    decreases s.len() - i,
{
    match next_token_spec(s, i) {
        Err(e) => Err(e),
        Ok((t, j)) => {
            if t is Eof || j <= i || j > s.len() {
                Ok(Seq::empty())
            } else {
                match lex_from(s, j) {
                    Err(e) => Err(e),
                    Ok(rest) => Ok(seq![t].add(rest)),
                }
            }
        },
    }
}

proof fn lemma_digits_nonneg(s: Seq<char>, i: int, k: int)
    requires
        0 <= i <= k <= s.len(),
        forall|x: int| i <= x < k ==> is_digit(#[trigger] s[x]),
    ensures
        0 <= digits_value(s, i, k),
    decreases k - i,
{
    if k > i {
        lemma_digits_nonneg(s, i, k - 1);
    }
}

proof fn lemma_digits_grow(s: Seq<char>, i: int, k: int, j: int)
    requires
        i <= k <= j <= s.len(),
        0 <= i,
        forall|x: int| i <= x < j ==> is_digit(#[trigger] s[x]),
    ensures
        0 <= digits_value(s, i, k) <= digits_value(s, i, j),
    decreases j - k,
{
    if j > k {
        lemma_digits_grow(s, i, k, j - 1);
        lemma_digits_nonneg(s, i, j - 1);
    } else {
        lemma_digits_nonneg(s, i, k);
    }
}

/// The characters of a text.
pub(crate) fn chars_of(code: &str) -> (r: Vec<char>)
    ensures
        r@ == code@,
{
    let n = code.unicode_len();
    let mut chars: Vec<char> = Vec::new();
    let mut i: usize = 0;
    while i < n
        invariant
            n == code@.len(),
            i <= n,
            chars@ == code@.subrange(0, i as int),
        decreases n - i,
    {
        chars.push(code.get_char(i));
        i += 1;
        assert(chars@ =~= code@.subrange(0, i as int));
    }
    assert(chars@ =~= code@);
    chars
}

/// A cursor over the characters of a source text.
pub(crate) struct Lexer {
    pub(crate) source: String,
    pub(crate) chars: Vec<char>,
    pub(crate) pos: usize,
}

impl Lexer {
    pub(crate) fn new(code: &str) -> (r: Lexer)
        ensures
            r.chars@ == code@,
            r.source@ == code@,
            r.pos == 0,
    {
        Lexer { source: code.to_owned(), chars: chars_of(code), pos: 0 }
    }

    /// The characters `from..to` as a string.
    fn text(&self, from: usize, to: usize) -> (r: String)
        requires
            from <= to <= self.chars@.len(),
            self.source@ == self.chars@,
        ensures
            r@ == self.chars@.subrange(from as int, to as int),
    {
        self.source.as_str().substring_char(from, to).to_owned()
    }

    /// Reads a run of digits starting at the cursor.
    fn read_number(&mut self) -> (r: Result<Token, LexError>)
        requires
            old(self).pos < old(self).chars@.len(),
            is_digit(old(self).chars@[old(self).pos as int]),
        ensures
            final(self).chars@ == old(self).chars@,
            final(self).source@ == old(self).source@,
            final(self).pos <= final(self).chars@.len(),
            match next_token_spec(old(self).chars@, old(self).pos as int) {
                Ok((t, j)) => r matches Ok(tok) && tok@ == t && final(self).pos == j,
                Err(e) => r == Err::<Token, LexError>(e),
            },
    {
        let ghost s = self.chars@;
        let n = self.chars.len();
        let start = self.pos;
        let mut pos = self.pos;
        let mut value: u64 = 0;
        while pos < n && '0' <= self.chars[pos] && self.chars[pos] <= '9'
            invariant
                self.chars@ == s,
                self.source@ == old(self).source@,
                self.pos == start,
                s == old(self).chars@,
                start == old(self).pos,
                n == s.len(),
                start < n,
                is_digit(s[start as int]),
                start <= pos <= n,
                digits_end(s, start as int) == digits_end(s, pos as int),
                forall|x: int| start <= x < pos ==> is_digit(#[trigger] s[x]),
                value == digits_value(s, start as int, pos as int),
                value <= i32::MAX,
            decreases n - pos,
        {
            let d = (self.chars[pos] as u32 - '0' as u32) as u64;
            value = value * 10 + d;
            pos = pos + 1;
            if value > 2147483647 {
                proof {
                    let j = digits_end(s, start as int);
                    lemma_digits_end_run(s, pos as int);
                    lemma_digits_grow(s, start as int, pos as int, j);
                }
                return Err(LexError::NumberOverflow(start));
            }
        }
        proof {
            lemma_digits_grow(s, start as int, pos as int, pos as int);
        }
        self.pos = pos;
        Ok(Token::Number(value as i32))
    }

    /// Reads an identifier starting at the cursor.
    fn read_ident(&mut self) -> (r: Token)
        requires
            old(self).pos < old(self).chars@.len(),
            old(self).source@ == old(self).chars@,
        ensures
            final(self).chars@ == old(self).chars@,
            final(self).source@ == old(self).source@,
            final(self).pos == ident_end(old(self).chars@, old(self).pos + 1),
            final(self).pos <= final(self).chars@.len(),
            r@ == TokenView::Ident(
                old(self).chars@.subrange(old(self).pos as int, final(self).pos as int),
            ),
    {
        let ghost s = self.chars@;
        let n = self.chars.len();
        let start = self.pos;
        self.pos = self.pos + 1;
        while self.pos < self.chars.len() && (is_letter_or_digit(self.chars[self.pos]) || self.chars[self.pos] == '_')
            invariant
                self.chars@ == s,
                self.source@ == old(self).source@,
                start < self.pos <= s.len(),
                start == old(self).pos,
                ident_end(s, start + 1) == ident_end(s, self.pos as int),
            decreases s.len() - self.pos,
        {
            self.pos = self.pos + 1;
        }
        Token::Ident(self.text(start, self.pos))
    }

    /// The next token, skipping whitespace; `Eof` at the end of the input.
    pub(crate) fn next_token(&mut self) -> (r: Result<Token, LexError>)
        requires
            old(self).pos <= old(self).chars@.len(),
            old(self).source@ == old(self).chars@,
        ensures
            final(self).chars@ == old(self).chars@,
            final(self).source@ == old(self).source@,
            final(self).pos <= final(self).chars@.len(),
            match next_token_spec(old(self).chars@, old(self).pos as int) {
                Ok((t, j)) => r matches Ok(tok) && tok@ == t && final(self).pos == j,
                Err(e) => r == Err::<Token, LexError>(e),
            },
        decreases old(self).chars@.len() - old(self).pos,
    {
        proof {
            lemma_next_advances(self.chars@, self.pos as int);
        }
        if self.pos >= self.chars.len() {
            return Ok(Token::Eof);
        }
        let c = self.chars[self.pos];
        let i = self.pos;
        if c == '{' {
            self.pos = i + 1;
            Ok(Token::LBrace)
        } else if c == '}' {
            self.pos = i + 1;
            Ok(Token::RBrace)
        } else if c == '(' {
            self.pos = i + 1;
            Ok(Token::LParen)
        } else if c == ')' {
            self.pos = i + 1;
            Ok(Token::RParen)
        } else if c == ':' {
            self.pos = i + 1;
            Ok(Token::Colon)
        } else if c == ',' {
            self.pos = i + 1;
            Ok(Token::Comma)
        } else if '0' <= c && c <= '9' {
            self.read_number()
        } else if is_letter(c) || c == '_' {
            Ok(self.read_ident())
        } else if is_space_char(c) {
            self.pos = i + 1;
            self.next_token()
        } else if c == '>' || c == '<' || c == '=' || c == '+' || c == '-' || c == '*' || c == '/' {
            let end = if (c == '>' || c == '<' || c == '=') && i + 1 < self.chars.len() && self.chars[i + 1] == '=' {
                i + 2
            } else {
                i + 1
            };
            let op = self.text(i, end);
            proof {
                let s = self.chars@;
                if end == i + 2 {
                    assert(s.subrange(i as int, end as int) =~= seq![c, '=']);
                } else {
                    assert(s.subrange(i as int, end as int) =~= seq![c]);
                }
            }
            self.pos = end;
            Ok(Token::Operator(op))
        } else if c == '"' {
            let mut j = i + 1;
            while j < self.chars.len() && self.chars[j] != '"'
                invariant
                    i < j <= self.chars@.len(),
                    quote_end(self.chars@, i + 1) == quote_end(self.chars@, j as int),
                decreases self.chars@.len() - j,
            {
                j = j + 1;
            }
            if j >= self.chars.len() {
                return Err(LexError::UnterminatedString(i));
            }
            let text = self.text(i + 1, j);
            self.pos = j + 1;
            Ok(Token::Str(text))
        } else {
            Err(LexError::UnexpectedChar(c, i))
        }
    }
}

proof fn lemma_digits_end_run(s: Seq<char>, k: int)
    requires
        0 <= k <= s.len(),
    ensures
        k <= digits_end(s, k) <= s.len(),
        forall|x: int| k <= x < digits_end(s, k) ==> is_digit(#[trigger] s[x]),
    decreases s.len() - k,
{
    if k < s.len() && is_digit(s[k]) {
        lemma_digits_end_run(s, k + 1);
    }
}

proof fn lemma_next_advances(s: Seq<char>, i: int)
    requires
        0 <= i <= s.len(),
    ensures
        next_token_spec(s, i) matches Ok((t, j)) ==> (t is Eof || i < j <= s.len()),
    decreases s.len() - i,
{
    if i < s.len() {
        let c = s[i];
        if is_digit(c) {
            lemma_digits_end_run(s, i);
            lemma_digits_end_run(s, i + 1);
        } else if is_ident_start(c) {
            lemma_ident_end_bound(s, i + 1);
        } else if space_char(c) {
            lemma_next_advances(s, i + 1);
        } else if c == '"' {
            lemma_quote_end_bound(s, i + 1);
        }
    }
}

proof fn lemma_ident_end_bound(s: Seq<char>, k: int)
    requires
        0 <= k <= s.len(),
    ensures
        k <= ident_end(s, k) <= s.len(),
    decreases s.len() - k,
{
    if k < s.len() && is_ident_char(s[k]) {
        lemma_ident_end_bound(s, k + 1);
    }
}

proof fn lemma_quote_end_bound(s: Seq<char>, k: int)
    requires
        0 <= k <= s.len(),
    ensures
        k <= quote_end(s, k) <= s.len(),
    decreases s.len() - k,
{
    if k < s.len() && s[k] != '"' {
        lemma_quote_end_bound(s, k + 1);
    }
}

/// Splits `source` into tokens, without the final `Eof`.
pub fn tokenize(source: &str) -> (r: Result<Vec<Token>, LexError>)
    ensures
        match lex_from(source@, 0) {
            Ok(ts) => r matches Ok(v) && views(v@) == ts,
            Err(e) => r == Err::<Vec<Token>, LexError>(e),
        },
{
    let mut lexer = Lexer::new(source);
    let mut tokens: Vec<Token> = Vec::new();
    proof {
        if let Ok(r) = lex_from(source@, 0) {
            assert(views(tokens@).add(r) =~= r);
        }
    }
    loop
        invariant
            lexer.chars@ == source@,
            lexer.source@ == source@,
            lexer.pos <= source@.len(),
            lex_from(source@, 0) == (match lex_from(source@, lexer.pos as int) {
                Ok(rest) => Ok(views(tokens@).add(rest)),
                Err(e) => Err(e),
            }),
        decreases source@.len() - lexer.pos,
    {
        let ghost before = lexer.pos as int;
        let t = match lexer.next_token() {
            Ok(t) => t,
            Err(e) => {
                return Err(e);
            },
        };
        if matches!(t, Token::Eof) {
            proof {
                assert(views(tokens@).add(Seq::empty()) =~= views(tokens@));
            }
            return Ok(tokens);
        }
        proof {
            lemma_next_advances(source@, before);
            let ghost rest = lex_from(source@, lexer.pos as int);
            assert(views(tokens@.push(t)) =~= views(tokens@).push(t@));
            if let Ok(r) = rest {
                assert(views(tokens@).push(t@).add(r) =~= views(tokens@).add(seq![t@].add(r)));
            }
        }
        tokens.push(t);
    }
}

} // verus!
