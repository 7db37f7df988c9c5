//! The recursive-descent parser: tokens to a syntax tree.
//!
//! Binary expressions associate strictly from left to right, with no
//! precedence levels. Every unexpected token ends the parse with an error.
use vstd::prelude::*;
use crate::ast::{expr_view, exprs_view, node_view, nodes_view, Expr, Node, NodeView};
use crate::grammar::{
    after_comma, g_args, g_block, g_box, g_box_args, g_call, g_expr, g_function, g_group,
    g_group_attrs, g_if, g_items, g_let, g_list, g_list_attrs, g_node, g_params, g_primary,
    g_program, g_stmts, g_text, g_text_args, g_binops, is_kw, tok, word_at,
};
use crate::lexer::{tokenize, lex_from, views, LexError, Token, TokenView};

verus! {

/// Errors of the parser.
#[derive(Debug)]
pub enum ParseError {
    /// A token other than the one the grammar asks for at `position`, with
    /// the tokens from there on.
    Unexpected { expected: String, found: Token, position: usize, remaining: Vec<Token> },
    /// A named argument that the element requires was not given.
    MissingArgument { name: String, position: usize },
    /// A named argument that the element does not take.
    UnknownParameter { name: String, position: usize },
}

/// Errors of lexing and parsing a source text.
#[derive(Debug)]
pub enum SyntaxError {
    Lex(LexError),
    Parse(ParseError),
}

/// A copy of a token.
pub fn copy_token(t: &Token) -> (r: Token)
    ensures
        r@ == t@,
{
    match t {
        Token::Ident(s) => Token::Ident(s.clone()),
        Token::Number(n) => Token::Number(*n),
        Token::Str(s) => Token::Str(s.clone()),
        Token::LBrace => Token::LBrace,
        Token::RBrace => Token::RBrace,
        Token::LParen => Token::LParen,
        Token::RParen => Token::RParen,
        Token::Colon => Token::Colon,
        Token::Comma => Token::Comma,
        Token::Operator(s) => Token::Operator(s.clone()),
        Token::Eof => Token::Eof,
    }
}

/// Whether `s` spells the word `w`.
pub fn is_word(s: &String, w: &str) -> (r: bool)
    ensures
        r == (s@ == w@),
{
    let t = w.to_owned();
    s.eq(&t)
}

/// An owned copy of a fixed text.
pub(crate) fn text_of(w: &str) -> (r: String)
    ensures
        r@ == w@,
{
    w.to_owned()
}

/// A cursor over a token list.
pub(crate) struct Parser {
    pub(crate) tokens: Vec<Token>,
    pub(crate) pos: usize,
}

impl Parser {
    pub(crate) open spec fn len(&self) -> int {
        self.tokens@.len() as int
    }

    /// The token list as plain values.
    pub(crate) open spec fn ts(&self) -> Seq<TokenView> {
        views(self.tokens@)
    }

    /// The token at the cursor, `Eof` past the end.
    pub(crate) open spec fn peek_spec(&self) -> TokenView {
        tok(self.ts(), self.pos as int)
    }

    /// A copy of the token at the cursor; `Eof` past the end.
    fn peek(&self) -> (r: Token)
        ensures
            r@ == self.peek_spec(),
    {
        if self.pos < self.tokens.len() {
            copy_token(&self.tokens[self.pos])
        } else {
            Token::Eof
        }
    }

    /// Takes the token at the cursor.
    fn advance(&mut self) -> (r: Token)
        requires
            old(self).pos <= old(self).len(),
        ensures
            final(self).tokens@ == old(self).tokens@,
            r@ == old(self).peek_spec(),
            final(self).pos == if old(self).pos < old(self).len() {
                old(self).pos + 1
            } else {
                old(self).pos as int
            },
    {
        let t = self.peek();
        if self.pos < self.tokens.len() {
            self.pos = self.pos + 1;
        }
        t
    }

    fn unexpected(&self, expected: &str) -> (r: ParseError)
        requires
            self.pos <= self.len(),
        ensures
            r matches ParseError::Unexpected { found, position, .. } && found@ == self.peek_spec()
                && position == self.pos,
            err_ok(r, self.ts()),
    {
        let mut remaining: Vec<Token> = Vec::new();
        let mut k = self.pos;
        let ghost ts = self.ts();
        assert(views(remaining@) =~= ts.subrange(self.pos as int, k as int));
        while k < self.tokens.len()
            invariant
                ts == self.ts(),
                ts.len() == self.len(),
                self.pos <= k <= self.len(),
                views(remaining@) == ts.subrange(self.pos as int, k as int),
            decreases self.len() - k,
        {
            let t = copy_token(&self.tokens[k]);
            proof {
                assert(views(remaining@.push(t)) =~= views(remaining@).push(t@));
                assert(ts.subrange(self.pos as int, k + 1) =~= ts.subrange(self.pos as int, k as int).push(ts[k as int]));
            }
            remaining.push(t);
            k += 1;
        }
        assert(self.pos == self.len() ==> ts.subrange(self.pos as int, k as int) =~= Seq::<TokenView>::empty());
        ParseError::Unexpected { expected: text_of(expected), found: self.peek(), position: self.pos, remaining }
    }

    fn at_rbrace(&self) -> (r: bool)
        ensures
            r == (self.peek_spec() is RBrace),
    {
        self.pos < self.tokens.len() && matches!(self.tokens[self.pos], Token::RBrace)
    }

    fn at_rparen(&self) -> (r: bool)
        ensures
            r == (self.peek_spec() is RParen),
    {
        self.pos < self.tokens.len() && matches!(self.tokens[self.pos], Token::RParen)
    }

    fn at_lparen(&self) -> (r: bool)
        ensures
            r == (self.peek_spec() is LParen),
    {
        self.pos < self.tokens.len() && matches!(self.tokens[self.pos], Token::LParen)
    }

    fn at_comma(&self) -> (r: bool)
        ensures
            r == (self.peek_spec() is Comma),
    {
        self.pos < self.tokens.len() && matches!(self.tokens[self.pos], Token::Comma)
    }

    /// Whether the token after the cursor is `(`.
    fn next_is_lparen(&self) -> (r: bool)
        ensures
            r == (tok(self.ts(), self.pos + 1) is LParen),
    {
        self.pos < self.tokens.len() && self.pos + 1 < self.tokens.len() && matches!(self.tokens[self.pos + 1], Token::LParen)
    }

    /// Whether the token at the cursor is an identifier.
    fn at_ident(&self) -> (r: bool)
        ensures
            r == (self.peek_spec() is Ident),
    {
        self.pos < self.tokens.len() && matches!(self.tokens[self.pos], Token::Ident(_))
    }

    /// Whether the token at the cursor is the identifier `w`.
    fn at_word(&self, w: &str) -> (r: bool)
        ensures
            r == (self.peek_spec() == TokenView::Ident(w@)),
    {
        if self.pos < self.tokens.len() {
            match &self.tokens[self.pos] {
                Token::Ident(s) => is_word(s, w),
                _ => false,
            }
        } else {
            false
        }
    }

    /// Whether the token at the cursor is an operator other than `=`.
    fn at_binary_operator(&self) -> (r: bool)
        ensures
            r == (self.peek_spec() is Operator && self.peek_spec()->Operator_0 != "="@),
    {
        if self.pos < self.tokens.len() {
            match &self.tokens[self.pos] {
                Token::Operator(s) => !is_word(s, "="),
                _ => false,
            }
        } else {
            false
        }
    }

    /// Consumes a token of the given shape.
    fn expect_punct(&mut self, want: &Token, name: &str) -> (r: Result<(), ParseError>)
        requires
            old(self).pos <= old(self).len(),
        ensures
            r matches Err(e) ==> err_ok(e, old(self).ts()),
            final(self).tokens@ == old(self).tokens@,
            final(self).pos <= final(self).len(),
            r is Ok ==> final(self).pos == old(self).pos + 1,
            is_punct(want@) ==> (r is Ok <==> old(self).peek_spec() == want@),
    {
        if self.pos < self.tokens.len() && same_kind(&self.tokens[self.pos], want) {
            self.pos = self.pos + 1;
            Ok(())
        } else {
            Err(self.unexpected(name))
        }
    }

    /// Consumes the identifier `w`.
    fn expect_ident(&mut self, w: &str) -> (r: Result<(), ParseError>)
        requires
            old(self).pos <= old(self).len(),
        ensures
            r matches Err(e) ==> err_ok(e, old(self).ts()),
            final(self).tokens@ == old(self).tokens@,
            final(self).pos <= final(self).len(),
            r is Ok <==> old(self).peek_spec() == TokenView::Ident(w@),
            r is Ok ==> final(self).pos == old(self).pos + 1,
    {
        if self.pos < self.tokens.len() && self.at_word(w) {
            self.pos = self.pos + 1;
            Ok(())
        } else {
            Err(self.unexpected(w))
        }
    }

    /// Consumes an identifier and returns its name.
    fn expect_name(&mut self) -> (r: Result<String, ParseError>)
        requires
            old(self).pos <= old(self).len(),
        ensures
            r matches Err(e) ==> err_ok(e, old(self).ts()),
            final(self).tokens@ == old(self).tokens@,
            final(self).pos <= final(self).len(),
            r is Ok <==> old(self).peek_spec() is Ident,
            r matches Ok(s) ==> old(self).peek_spec() == TokenView::Ident(s@) && final(self).pos
                == old(self).pos + 1,
    {
        if self.pos < self.tokens.len() {
            match &self.tokens[self.pos] {
                Token::Ident(s) => {
                    let name = s.clone();
                    self.pos = self.pos + 1;
                    return Ok(name);
                },
                _ => {},
            }
        }
        Err(self.unexpected("identifier"))
    }

    /// Consumes a number and returns its value.
    fn expect_number(&mut self) -> (r: Result<i32, ParseError>)
        requires
            old(self).pos <= old(self).len(),
        ensures
            r matches Err(e) ==> err_ok(e, old(self).ts()),
            final(self).tokens@ == old(self).tokens@,
            final(self).pos <= final(self).len(),
            r is Ok <==> old(self).peek_spec() is Number,
            r matches Ok(n) ==> old(self).peek_spec() == TokenView::Number(n) && final(self).pos
                == old(self).pos + 1,
    {
        if self.pos < self.tokens.len() {
            match &self.tokens[self.pos] {
                Token::Number(n) => {
                    let v = *n;
                    self.pos = self.pos + 1;
                    return Ok(v);
                },
                _ => {},
            }
        }
        Err(self.unexpected("number"))
    }

    /// Consumes a string literal, or an identifier used as a word, and returns
    /// its text.
    fn expect_word_value(&mut self) -> (r: Result<String, ParseError>)
        requires
            old(self).pos <= old(self).len(),
        ensures
            r matches Err(e) ==> err_ok(e, old(self).ts()),
            final(self).tokens@ == old(self).tokens@,
            final(self).pos <= final(self).len(),
            match word_at(old(self).ts(), old(self).pos as int) {
                Some(w) => r matches Ok(s) && s@ == w && final(self).pos == old(self).pos + 1,
                None => r is Err,
            },
    {
        if self.pos < self.tokens.len() {
            match &self.tokens[self.pos] {
                Token::Str(s) => {
                    let v = s.clone();
                    self.pos = self.pos + 1;
                    return Ok(v);
                },
                Token::Ident(s) => {
                    let v = s.clone();
                    self.pos = self.pos + 1;
                    return Ok(v);
                },
                _ => {},
            }
        }
        Err(self.unexpected("string"))
    }

    /// Consumes a `,` if there is one.
    fn skip_comma(&mut self)
        requires
            old(self).pos <= old(self).len(),
        ensures
            final(self).tokens@ == old(self).tokens@,
            old(self).pos <= final(self).pos <= final(self).len(),
            final(self).pos == after_comma(old(self).ts(), old(self).pos as int),
    {
        if self.pos < self.tokens.len() && self.at_comma() {
            self.pos = self.pos + 1;
        }
    }
}

/// Where reading the top-level statements from `i` on stops: the position
/// of the first statement that does not fit the grammar, if any.
pub open spec fn top_failure(ts: Seq<TokenView>, i: int) -> Option<int>
    decreases ts.len() - i,
{
    if i < 0 || i >= ts.len() {
        None
    } else {
        match g_node(ts, i) {
            Some((n, k)) => if i < k <= ts.len() {
                top_failure(ts, k)
            } else {
                Some(i)
            },
            None => Some(i),
        }
    }
}

/// What a parse error says holds of the tokens: an unexpected token is the
/// one at its position, followed by the remaining tokens; a missing argument
/// is noticed within the list; an unknown parameter is the identifier at its
/// position.
pub open spec fn err_ok(e: ParseError, ts: Seq<TokenView>) -> bool {
    match e {
        ParseError::Unexpected { found, position, remaining, .. } => found@ == tok(ts, position as int)
            && views(remaining@) == if position < ts.len() {
            ts.subrange(position as int, ts.len() as int)
        } else {
            Seq::empty()
        },
        ParseError::MissingArgument { position, .. } => position <= ts.len(),
        ParseError::UnknownParameter { name, position } => position < ts.len() && ts[position as int]
            == TokenView::Ident(name@),
    }
}

/// A token that carries no text or value.
pub open spec fn is_punct(t: TokenView) -> bool {
    !(t is Ident || t is Number || t is Str || t is Operator || t is Eof)
}

/// Whether two tokens are of the same kind, whatever they hold.
fn same_kind(a: &Token, b: &Token) -> (r: bool)
    ensures
        is_punct(b@) ==> (r <==> a@ == b@),
{
    match (a, b) {
        (Token::Ident(_), Token::Ident(_)) => true,
        (Token::Number(_), Token::Number(_)) => true,
        (Token::Str(_), Token::Str(_)) => true,
        (Token::LBrace, Token::LBrace) => true,
        (Token::RBrace, Token::RBrace) => true,
        (Token::LParen, Token::LParen) => true,
        (Token::RParen, Token::RParen) => true,
        (Token::Colon, Token::Colon) => true,
        (Token::Comma, Token::Comma) => true,
        (Token::Operator(_), Token::Operator(_)) => true,
        (Token::Eof, Token::Eof) => true,
        _ => false,
    }
}

proof fn lemma_nodes_push(s: Seq<Node>, n: Node)
    ensures
        nodes_view(s.push(n)) == nodes_view(s).push(node_view(n)),
{
    assert(s.push(n).subrange(0, s.len() as int) =~= s);
}

proof fn lemma_exprs_push(s: Seq<Expr>, e: Expr)
    ensures
        exprs_view(s.push(e)) == exprs_view(s).push(expr_view(e)),
{
    assert(s.push(e).subrange(0, s.len() as int) =~= s);
}

/// The view of a list of parameters.
pub open spec fn params_view(ps: Seq<(String, String)>) -> Seq<(Seq<char>, Seq<char>)> {
    ps.map_values(|p: (String, String)| (p.0@, p.1@))
}

impl Parser {
    /// Statements up to the end of the token list.
    pub(crate) fn parse_nodes(&mut self) -> (r: Result<Vec<Node>, ParseError>)
        requires
            old(self).pos == 0,
        ensures
            r matches Err(e) ==> err_ok(e, old(self).ts()),
            final(self).tokens@ == old(self).tokens@,
            match g_program(old(self).ts(), 0, Seq::empty()) {
                Some(v) => r matches Ok(ns) && nodes_view(ns@) == v,
                None => r is Err,
            },
            match top_failure(old(self).ts(), 0) {
                Some(p) => !(tok(old(self).ts(), p) is Ident) ==> (r matches Err(ParseError::Unexpected { position, .. })
                    && position == p),
                None => true,
            },
    {
        let mut nodes: Vec<Node> = Vec::new();
        let ghost ts = self.ts();
        while self.pos < self.tokens.len()
            invariant
                self.tokens@ == old(self).tokens@,
                ts == self.ts(),
                self.pos <= self.len(),
                g_program(ts, 0, Seq::empty()) == g_program(ts, self.pos as int, nodes_view(nodes@)),
                top_failure(ts, 0) == top_failure(ts, self.pos as int),
            decreases self.len() - self.pos,
        {
            let n = self.parse_node()?;
            proof {
                lemma_nodes_push(nodes@, n);
            }
            nodes.push(n);
        }
        Ok(nodes)
    }

    /// One statement, chosen by the identifier at the cursor.
    fn parse_node(&mut self) -> (r: Result<Node, ParseError>)
        requires
            old(self).pos <= old(self).len(),
        ensures
            r matches Err(e) ==> err_ok(e, old(self).ts()),
            !(old(self).peek_spec() is Ident) ==> (r matches Err(ParseError::Unexpected { position, .. })
                && position == old(self).pos),
            final(self).tokens@ == old(self).tokens@,
            final(self).pos <= final(self).len(),
            r is Ok ==> final(self).pos > old(self).pos,
            match g_node(old(self).ts(), old(self).pos as int) {
                Some((v, k)) => r matches Ok(n) && node_view(n) == v && final(self).pos == k,
                None => r is Err,
            },
        decreases old(self).len() - old(self).pos, 1nat,
    {
        if self.pos >= self.tokens.len() {
            return Err(self.unexpected("statement"));
        }
        if self.at_word("if") {
            self.parse_if()
        } else if self.at_word("group") {
            self.parse_group()
        } else if self.at_word("box") {
            self.parse_box()
        } else if self.at_word("text") {
            self.parse_text()
        } else if self.at_word("list") {
            self.parse_list()
        } else if self.at_word("let") {
            self.parse_let()
        } else if self.at_word("function") {
            self.parse_function()
        } else if self.at_ident() && self.next_is_lparen() {
            let e = self.parse_call()?;
            Ok(Node::Expr(e))
        } else {
            Err(self.unexpected("statement"))
        }
    }

    /// `{ statement* }`
    fn parse_block(&mut self) -> (r: Result<Vec<Node>, ParseError>)
        requires
            old(self).pos <= old(self).len(),
        ensures
            r matches Err(e) ==> err_ok(e, old(self).ts()),
            final(self).tokens@ == old(self).tokens@,
            final(self).pos <= final(self).len(),
            r is Ok ==> final(self).pos > old(self).pos,
            match g_block(old(self).ts(), old(self).pos as int) {
                Some((v, k)) => r matches Ok(ns) && nodes_view(ns@) == v && final(self).pos == k,
                None => r is Err,
            },
        decreases old(self).len() - old(self).pos, 0nat,
    {
        let ghost ts = self.ts();
        let ghost start = self.pos as int;
        self.expect_punct(&Token::LBrace, "{")?;
        let mut body: Vec<Node> = Vec::new();
        while !self.at_rbrace()
            invariant
                self.tokens@ == old(self).tokens@,
                old(self).pos < self.pos <= self.len(),
                ts == self.ts(),
                start == old(self).pos,
                g_block(ts, start) == g_stmts(ts, self.pos as int, nodes_view(body@)),
            decreases self.len() - self.pos,
        {
            if self.pos >= self.tokens.len() {
                return Err(self.unexpected("}"));
            }
            let n = self.parse_node()?;
            proof {
                lemma_nodes_push(body@, n);
            }
            body.push(n);
        }
        self.expect_punct(&Token::RBrace, "}")?;
        Ok(body)
    }

    /// `group [( name: value, ... )] { statement* }`; `gap` and `padding`
    /// take numbers, `direction`, `align` and `justify` take words.
    fn parse_group(&mut self) -> (r: Result<Node, ParseError>)
        requires
            old(self).pos <= old(self).len(),
        ensures
            r matches Err(e) ==> err_ok(e, old(self).ts()),
            final(self).tokens@ == old(self).tokens@,
            final(self).pos <= final(self).len(),
            r is Ok ==> final(self).pos > old(self).pos,
            match g_group(old(self).ts(), old(self).pos as int) {
                Some((v, k)) => r matches Ok(n) && node_view(n) == v && final(self).pos == k,
                None => r is Err,
            },
        decreases old(self).len() - old(self).pos, 0nat,
    {
        let ghost ts = self.ts();
        let ghost i = self.pos as int;
        self.expect_ident("group")?;
        let mut direction = text_of("vertical");
        let mut gap: i32 = 0;
        let mut align = text_of("start");
        let mut justify = text_of("start");
        let mut padding: i32 = 0;
        let ghost defaults = ("vertical"@, 0i32, "start"@, "start"@, 0i32);
        let ghost attrs = if tok(ts, i + 1) is LParen {
            g_group_attrs(ts, i + 2, defaults)
        } else {
            Some((defaults, i + 1))
        };
        if self.at_lparen() {
            self.expect_punct(&Token::LParen, "(")?;
            while !self.at_rparen()
                invariant
                self.tokens@ == old(self).tokens@,
                old(self).pos < self.pos <= self.len(),
                    ts == self.ts(),
                    i == old(self).pos as int,
                    tok(ts, i + 1) is LParen,
                    0 <= i < ts.len(),
                    is_kw(ts, i, "group"@),
                    defaults == ("vertical"@, 0i32, "start"@, "start"@, 0i32),
                    attrs == g_group_attrs(ts, i + 2, defaults),
                    attrs == g_group_attrs(ts, self.pos as int, (direction@, gap, align@, justify@, padding)),
                decreases self.len() - self.pos,
            {
                let key_pos = self.pos;
                let key = self.expect_name()?;
                self.expect_punct(&Token::Colon, ":")?;
                if is_word(&key, "gap") {
                    gap = self.expect_number()?;
                } else if is_word(&key, "padding") {
                    padding = self.expect_number()?;
                } else if is_word(&key, "direction") {
                    direction = self.expect_word_value()?;
                } else if is_word(&key, "align") {
                    align = self.expect_word_value()?;
                } else if is_word(&key, "justify") {
                    justify = self.expect_word_value()?;
                } else {
                    return Err(ParseError::UnknownParameter { name: key, position: key_pos });
                }
                self.skip_comma();
            }
            self.expect_punct(&Token::RParen, ")")?;
        }
        assert(attrs == Some(((direction@, gap, align@, justify@, padding), self.pos as int)));
        let children = self.parse_block()?;
        Ok(Node::Group { direction, gap, align, justify, padding, children })
    }

    /// `list [( name: value, ... )] { "item"* }`; `gap` and `padding` take
    /// numbers, `direction` a word.
    fn parse_list(&mut self) -> (r: Result<Node, ParseError>)
        requires
            old(self).pos <= old(self).len(),
        ensures
            r matches Err(e) ==> err_ok(e, old(self).ts()),
            final(self).tokens@ == old(self).tokens@,
            final(self).pos <= final(self).len(),
            r is Ok ==> final(self).pos > old(self).pos,
            match g_list(old(self).ts(), old(self).pos as int) {
                Some((v, k)) => r matches Ok(n) && node_view(n) == v && final(self).pos == k,
                None => r is Err,
            },
        decreases old(self).len() - old(self).pos, 0nat,
    {
        let ghost ts = self.ts();
        let ghost i = self.pos as int;
        self.expect_ident("list")?;
        let mut direction = text_of("vertical");
        let mut gap: i32 = 0;
        let mut padding: i32 = 0;
        let ghost defaults = ("vertical"@, 0i32, 0i32);
        let ghost attrs = if tok(ts, i + 1) is LParen {
            g_list_attrs(ts, i + 2, defaults)
        } else {
            Some((defaults, i + 1))
        };
        if self.at_lparen() {
            self.expect_punct(&Token::LParen, "(")?;
            while !self.at_rparen()
                invariant
                self.tokens@ == old(self).tokens@,
                old(self).pos < self.pos <= self.len(),
                    ts == self.ts(),
                    i == old(self).pos as int,
                    tok(ts, i + 1) is LParen,
                    0 <= i < ts.len(),
                    is_kw(ts, i, "list"@),
                    defaults == ("vertical"@, 0i32, 0i32),
                    attrs == g_list_attrs(ts, i + 2, defaults),
                    attrs == g_list_attrs(ts, self.pos as int, (direction@, gap, padding)),
                decreases self.len() - self.pos,
            {
                let key_pos = self.pos;
                let key = self.expect_name()?;
                self.expect_punct(&Token::Colon, ":")?;
                if is_word(&key, "gap") {
                    gap = self.expect_number()?;
                } else if is_word(&key, "padding") {
                    padding = self.expect_number()?;
                } else if is_word(&key, "direction") {
                    direction = self.expect_word_value()?;
                } else {
                    return Err(ParseError::UnknownParameter { name: key, position: key_pos });
                }
                self.skip_comma();
            }
            self.expect_punct(&Token::RParen, ")")?;
        }
        assert(attrs == Some(((direction@, gap, padding), self.pos as int)));
        self.expect_punct(&Token::LBrace, "{")?;
        let mut items: Vec<Node> = Vec::new();
        let ghost k0 = self.pos as int;
        while !self.at_rbrace()
            invariant
                self.tokens@ == old(self).tokens@,
                old(self).pos < self.pos <= self.len(),
                ts == self.ts(),
                i == old(self).pos as int,
                g_items(ts, k0, Seq::empty()) == g_items(ts, self.pos as int, nodes_view(items@)),
                g_list(ts, i) == match g_items(ts, k0, Seq::empty()) {
                    Some((its, m)) => Some((NodeView::List { direction: direction@, gap, padding, items: its }, m)),
                    None => None,
                },
            decreases self.len() - self.pos,
        {
            let value = match self.peek() {
                Token::Str(v) => v,
                _ => {
                    return Err(self.unexpected("string item"));
                },
            };
            self.advance();
            let item = Node::Item { value };
            proof {
                lemma_nodes_push(items@, item);
            }
            items.push(item);
            self.skip_comma();
        }
        self.expect_punct(&Token::RBrace, "}")?;
        Ok(Node::List { direction, gap, padding, items })
    }

    /// `box(x: N, y: N, width: N, height: N)`, the arguments in any order,
    /// each of the four required; a later value of a name replaces an
    /// earlier one.
    fn parse_box(&mut self) -> (r: Result<Node, ParseError>)
        requires
            old(self).pos <= old(self).len(),
        ensures
            r matches Err(e) ==> err_ok(e, old(self).ts()),
            final(self).tokens@ == old(self).tokens@,
            final(self).pos <= final(self).len(),
            r is Ok ==> final(self).pos > old(self).pos,
            match g_box(old(self).ts(), old(self).pos as int) {
                Some((v, k)) => r matches Ok(n) && node_view(n) == v && final(self).pos == k,
                None => r is Err,
            },
        decreases old(self).len() - old(self).pos, 0nat,
    {
        let ghost ts = self.ts();
        let ghost i = self.pos as int;
        self.expect_ident("box")?;
        self.expect_punct(&Token::LParen, "(")?;
        let mut x: Option<i32> = None;
        let mut y: Option<i32> = None;
        let mut width: Option<i32> = None;
        let mut height: Option<i32> = None;
        while !self.at_rparen()
            invariant
                self.tokens@ == old(self).tokens@,
                old(self).pos < self.pos <= self.len(),
                ts == self.ts(),
                i == old(self).pos as int,
                g_box(ts, i) == g_box_args(ts, self.pos as int, x, y, width, height),
            decreases self.len() - self.pos,
        {
            let key_pos = self.pos;
            let key = self.expect_name()?;
            self.expect_punct(&Token::Colon, ":")?;
            let value = self.expect_number()?;
            if is_word(&key, "x") {
                x = Some(value);
            } else if is_word(&key, "y") {
                y = Some(value);
            } else if is_word(&key, "width") {
                width = Some(value);
            } else if is_word(&key, "height") {
                height = Some(value);
            } else {
                return Err(ParseError::UnknownParameter { name: key, position: key_pos });
            }
            self.skip_comma();
        }
        let close = self.pos;
        self.expect_punct(&Token::RParen, ")")?;
        match (x, y, width, height) {
            (Some(x), Some(y), Some(width), Some(height)) => Ok(Node::Box { x, y, width, height }),
            _ => {
                let name = if x.is_none() {
                    text_of("x")
                } else if y.is_none() {
                    text_of("y")
                } else if width.is_none() {
                    text_of("width")
                } else {
                    text_of("height")
                };
                Err(ParseError::MissingArgument { name, position: close })
            },
        }
    }

    /// `text(x: N, y: N, value: expr)`; the position defaults to 0, the value
    /// is required.
    fn parse_text(&mut self) -> (r: Result<Node, ParseError>)
        requires
            old(self).pos <= old(self).len(),
        ensures
            r matches Err(e) ==> err_ok(e, old(self).ts()),
            final(self).tokens@ == old(self).tokens@,
            final(self).pos <= final(self).len(),
            r is Ok ==> final(self).pos > old(self).pos,
            match g_text(old(self).ts(), old(self).pos as int) {
                Some((v, k)) => r matches Ok(n) && node_view(n) == v && final(self).pos == k,
                None => r is Err,
            },
        decreases old(self).len() - old(self).pos, 0nat,
    {
        let ghost ts = self.ts();
        let ghost i = self.pos as int;
        self.expect_ident("text")?;
        self.expect_punct(&Token::LParen, "(")?;
        let mut x: i32 = 0;
        let mut y: i32 = 0;
        let mut value: Option<Expr> = None;
        while !self.at_rparen()
            invariant
                self.tokens@ == old(self).tokens@,
                old(self).pos < self.pos <= self.len(),
                ts == self.ts(),
                i == old(self).pos as int,
                g_text(ts, i) == g_text_args(ts, self.pos as int, x, y, match value {
                    Some(e) => Some(expr_view(e)),
                    None => None,
                }),
            decreases self.len() - self.pos,
        {
            let key_pos = self.pos;
            let key = self.expect_name()?;
            self.expect_punct(&Token::Colon, ":")?;
            if is_word(&key, "x") {
                x = self.expect_number()?;
            } else if is_word(&key, "y") {
                y = self.expect_number()?;
            } else if is_word(&key, "value") {
                value = Some(self.parse_expr()?);
            } else {
                return Err(ParseError::UnknownParameter { name: key, position: key_pos });
            }
            self.skip_comma();
        }
        let close = self.pos;
        self.expect_punct(&Token::RParen, ")")?;
        match value {
            Some(value) => Ok(Node::Text { x, y, value }),
            None => Err(ParseError::MissingArgument { name: text_of("value"), position: close }),
        }
    }

    /// `if (expr) { statement* } [else { statement* }]`
    fn parse_if(&mut self) -> (r: Result<Node, ParseError>)
        requires
            old(self).pos <= old(self).len(),
        ensures
            r matches Err(e) ==> err_ok(e, old(self).ts()),
            final(self).tokens@ == old(self).tokens@,
            final(self).pos <= final(self).len(),
            r is Ok ==> final(self).pos > old(self).pos,
            match g_if(old(self).ts(), old(self).pos as int) {
                Some((v, k)) => r matches Ok(n) && node_view(n) == v && final(self).pos == k,
                None => r is Err,
            },
        decreases old(self).len() - old(self).pos, 0nat,
    {
        self.expect_ident("if")?;
        self.expect_punct(&Token::LParen, "(")?;
        let condition = self.parse_expr()?;
        self.expect_punct(&Token::RParen, ")")?;
        let then_body = self.parse_block()?;
        let else_body = if self.at_word("else") {
            self.expect_ident("else")?;
            Some(self.parse_block()?)
        } else {
            None
        };
        Ok(Node::If { condition, then_body, else_body })
    }

    /// `let name = expr`
    fn parse_let(&mut self) -> (r: Result<Node, ParseError>)
        requires
            old(self).pos <= old(self).len(),
        ensures
            r matches Err(e) ==> err_ok(e, old(self).ts()),
            final(self).tokens@ == old(self).tokens@,
            final(self).pos <= final(self).len(),
            r is Ok ==> final(self).pos > old(self).pos,
            match g_let(old(self).ts(), old(self).pos as int) {
                Some((v, k)) => r matches Ok(n) && node_view(n) == v && final(self).pos == k,
                None => r is Err,
            },
        decreases old(self).len() - old(self).pos, 0nat,
    {
        self.expect_ident("let")?;
        let name = self.expect_name()?;
        let eq_ok = match self.peek() {
            Token::Operator(s) => is_word(&s, "="),
            _ => false,
        };
        if !eq_ok {
            return Err(self.unexpected("="));
        }
        self.advance();
        let value = self.parse_expr()?;
        Ok(Node::Let { name, value })
    }

    /// `function name(param: type, ...) { statement* }`
    fn parse_function(&mut self) -> (r: Result<Node, ParseError>)
        requires
            old(self).pos <= old(self).len(),
        ensures
            r matches Err(e) ==> err_ok(e, old(self).ts()),
            final(self).tokens@ == old(self).tokens@,
            final(self).pos <= final(self).len(),
            r is Ok ==> final(self).pos > old(self).pos,
            match g_function(old(self).ts(), old(self).pos as int) {
                Some((v, k)) => r matches Ok(n) && node_view(n) == v && final(self).pos == k,
                None => r is Err,
            },
        decreases old(self).len() - old(self).pos, 0nat,
    {
        let ghost ts = self.ts();
        let ghost i = self.pos as int;
        self.expect_ident("function")?;
        let name = self.expect_name()?;
        self.expect_punct(&Token::LParen, "(")?;
        let mut params: Vec<(String, String)> = Vec::new();
        assert(params_view(params@) =~= Seq::empty());
        while !self.at_rparen()
            invariant
                self.tokens@ == old(self).tokens@,
                old(self).pos < self.pos <= self.len(),
                ts == self.ts(),
                i == old(self).pos as int,
                g_params(ts, i + 3, Seq::empty()) == g_params(ts, self.pos as int, params_view(params@)),
            decreases self.len() - self.pos,
        {
            let pname = self.expect_name()?;
            self.expect_punct(&Token::Colon, ":")?;
            let ptype = self.expect_name()?;
            let ghost before = params@;
            params.push((pname, ptype));
            proof {
                assert(params_view(params@) =~= params_view(before).push((pname@, ptype@)));
            }
            self.skip_comma();
        }
        self.expect_punct(&Token::RParen, ")")?;
        let body = self.parse_block()?;
        Ok(Node::Function { name, params, body })
    }

    /// `name(expr, ...)`
    fn parse_call(&mut self) -> (r: Result<Expr, ParseError>)
        requires
            old(self).pos <= old(self).len(),
        ensures
            r matches Err(e) ==> err_ok(e, old(self).ts()),
            final(self).tokens@ == old(self).tokens@,
            final(self).pos <= final(self).len(),
            r is Ok ==> final(self).pos > old(self).pos,
            match g_call(old(self).ts(), old(self).pos as int) {
                Some((v, k)) => r matches Ok(n) && expr_view(n) == v && final(self).pos == k,
                None => r is Err,
            },
        decreases old(self).len() - old(self).pos, 0nat,
    {
        let ghost ts = self.ts();
        let ghost i = self.pos as int;
        let name = self.expect_name()?;
        self.expect_punct(&Token::LParen, "(")?;
        let mut args: Vec<Expr> = Vec::new();
        while !self.at_rparen()
            invariant
                self.tokens@ == old(self).tokens@,
                old(self).pos < self.pos <= self.len(),
                ts == self.ts(),
                i == old(self).pos as int,
                tok(ts, i) == TokenView::Ident(name@),
                g_call(ts, i) == g_args(ts, self.pos as int, name@, exprs_view(args@)),
            decreases self.len() - self.pos,
        {
            let a = self.parse_expr()?;
            proof {
                lemma_exprs_push(args@, a);
            }
            args.push(a);
            self.skip_comma();
        }
        self.expect_punct(&Token::RParen, ")")?;
        Ok(Expr::Call { name, args })
    }

    /// Operands joined by operators, combined strictly from left to right.
    fn parse_expr(&mut self) -> (r: Result<Expr, ParseError>)
        requires
            old(self).pos <= old(self).len(),
        ensures
            r matches Err(e) ==> err_ok(e, old(self).ts()),
            final(self).tokens@ == old(self).tokens@,
            final(self).pos <= final(self).len(),
            r is Ok ==> final(self).pos > old(self).pos,
            match g_expr(old(self).ts(), old(self).pos as int) {
                Some((v, k)) => r matches Ok(n) && expr_view(n) == v && final(self).pos == k,
                None => r is Err,
            },
        decreases old(self).len() - old(self).pos, 4nat,
    {
        let ghost ts = self.ts();
        let ghost i = self.pos as int;
        let mut left = self.parse_primary()?;
        while self.pos < self.tokens.len() && self.at_binary_operator()
            invariant
                self.tokens@ == old(self).tokens@,
                old(self).pos < self.pos <= self.len(),
                ts == self.ts(),
                i == old(self).pos as int,
                g_expr(ts, i) == g_binops(ts, self.pos as int, expr_view(left)),
            decreases self.len() - self.pos,
        {
            let op = match self.advance() {
                Token::Operator(s) => s,
                _ => {
                    return Err(self.unexpected("operator"));
                },
            };
            let right = self.parse_primary()?;
            left = Expr::Binary { left: Box::new(left), op, right: Box::new(right) };
        }
        Ok(left)
    }

    /// A literal, a name, a call, a layout element used as a value, or an
    /// expression in parentheses.
    fn parse_primary(&mut self) -> (r: Result<Expr, ParseError>)
        requires
            old(self).pos <= old(self).len(),
        ensures
            r matches Err(e) ==> err_ok(e, old(self).ts()),
            final(self).tokens@ == old(self).tokens@,
            final(self).pos <= final(self).len(),
            r is Ok ==> final(self).pos > old(self).pos,
            match g_primary(old(self).ts(), old(self).pos as int) {
                Some((v, k)) => r matches Ok(n) && expr_view(n) == v && final(self).pos == k,
                None => r is Err,
            },
        decreases old(self).len() - old(self).pos, 3nat,
    {
        if self.at_word("box") || self.at_word("group") || self.at_word("text") || self.at_word("list") {
            let n = self.parse_node()?;
            return Ok(Expr::Layout(Box::new(n)));
        }
        if self.at_ident() && self.next_is_lparen() {
            return self.parse_call();
        }
        let here = self.pos;
        match self.advance() {
            Token::Number(n) => Ok(Expr::Literal(n)),
            Token::Str(s) => Ok(Expr::StringLiteral(s)),
            Token::Ident(s) => Ok(Expr::Identifier(s)),
            Token::LParen => {
                let e = self.parse_expr()?;
                self.expect_punct(&Token::RParen, ")")?;
                Ok(e)
            },
            _ => {
                self.pos = here;
                Err(self.unexpected("expression"))
            },
        }
    }
}

/// Parses a source text into its top-level statements: the tokens of the
/// text, read by the grammar from the first to the last.
pub fn parse_wpp(source: &str) -> (r: Result<Vec<Node>, SyntaxError>)
    ensures
        match lex_from(source@, 0) {
            Err(e) => r matches Err(SyntaxError::Lex(e2)) && e2 == e,
            Ok(ts) => match g_program(ts, 0, Seq::empty()) {
                Some(v) => r matches Ok(ns) && nodes_view(ns@) == v,
                None => r matches Err(SyntaxError::Parse(e)) && err_ok(e, ts),
            },
        },
        match lex_from(source@, 0) {
            Ok(ts) => match top_failure(ts, 0) {
                Some(p) => !(tok(ts, p) is Ident) ==> (r matches Err(
                    SyntaxError::Parse(ParseError::Unexpected { position, .. }),
                ) && position == p),
                None => true,
            },
            Err(_) => true,
        },
{
    let tokens = match tokenize(source) {
        Ok(t) => t,
        Err(e) => {
            return Err(SyntaxError::Lex(e));
        },
    };
    let mut parser = Parser { tokens, pos: 0 };
    match parser.parse_nodes() {
        Ok(nodes) => Ok(nodes),
        Err(e) => Err(SyntaxError::Parse(e)),
    }
}

} // verus!
