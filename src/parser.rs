//! The reader: text to tokens to a value.
use vstd::prelude::*;
use crate::ast::{Ast, Val, vals_of};
use crate::text::{
    byte_len, char_width, chars_of, is_space, is_ws, parse_i64, push_char, same_text, int_of_text,
    lemma_utf8_len_subrange, utf8_len,
};

verus! {

/// A lexical unit: a parenthesis, or a run of text classified as a symbol,
/// an integer, or a quoted string.
#[derive(Debug)]
pub enum Token {
    LeftParen,
    RightParen,
    Symbol(String),
    Integer(i64),
    String(String),
}

/// The mathematical form of a `Token`.
pub enum TokenV {
    LeftParen,
    RightParen,
    Symbol(Seq<char>),
    Integer(i64),
    Str(Seq<char>),
}

impl View for Token {
    type V = TokenV;

    open spec fn view(&self) -> TokenV {
        match self {
            Token::LeftParen => TokenV::LeftParen,
            Token::RightParen => TokenV::RightParen,
            Token::Symbol(s) => TokenV::Symbol(s@),
            Token::Integer(n) => TokenV::Integer(*n),
            Token::String(s) => TokenV::Str(s@),
        }
    }
}

/// A token and the offset, in bytes of UTF-8, at which it starts.
pub type PositionalToken = (usize, Token);

pub open spec fn toks_view(ts: Seq<PositionalToken>) -> Seq<(usize, TokenV)> {
    ts.map_values(|t: PositionalToken| (t.0, t.1@))
}

/// Reader errors, and the type errors of builtins.
#[derive(Debug)]
pub enum ParserError {
    ExpectedGot(usize, Token, Token),
    ExpectedGotEof(Token),
    ExpectedAnyGotEof,
    /// A parenthesis where a value was expected.
    Unexpected(usize, Token),
    /// Function name, argument position (from 1), expected type, actual value.
    TypeMismatch(String, usize, String, Ast),
    ExpectedSymbol,
}

/// The mathematical form of a `ParserError`.
pub enum ParseErr {
    ExpectedGot(usize, TokenV, TokenV),
    ExpectedGotEof(TokenV),
    ExpectedAnyGotEof,
    Unexpected(usize, TokenV),
    TypeMismatch(Seq<char>, usize, Seq<char>, Val),
    ExpectedSymbol,
}

impl View for ParserError {
    type V = ParseErr;

    open spec fn view(&self) -> ParseErr {
        match self {
            ParserError::ExpectedGot(i, e, g) => ParseErr::ExpectedGot(*i, e@, g@),
            ParserError::ExpectedGotEof(e) => ParseErr::ExpectedGotEof(e@),
            ParserError::ExpectedAnyGotEof => ParseErr::ExpectedAnyGotEof,
            ParserError::Unexpected(i, t) => ParseErr::Unexpected(*i, t@),
            ParserError::TypeMismatch(f, i, e, a) => ParseErr::TypeMismatch(f@, *i, e@, a@),
            ParserError::ExpectedSymbol => ParseErr::ExpectedSymbol,
        }
    }
}

// ---------------------------------------------------------------- trimming

/// Text without the whitespace at either end.
pub open spec fn trim(s: Seq<char>) -> Seq<char>
    decreases s.len(),
{
    if s.len() > 0 && is_ws(s[0]) {
        trim(s.drop_first())
    } else if s.len() > 0 && is_ws(s.last()) {
        trim(s.drop_last())
    } else {
        s
    }
}

proof fn lemma_trim_len(s: Seq<char>)
    ensures
        utf8_len(trim(s)) <= utf8_len(s),
    decreases s.len(),
{
    if s.len() > 0 && is_ws(s[0]) {
        lemma_trim_len(s.drop_first());
        lemma_utf8_len_subrange(s, 1, s.len() as int);
        assert(s.drop_first() =~= s.subrange(1, s.len() as int));
    } else if s.len() > 0 && is_ws(s.last()) {
        lemma_trim_len(s.drop_last());
    }
}

fn trim_chars(cs: &Vec<char>) -> (r: Vec<char>)
    ensures
        r@ == trim(cs@),
{
    let n = cs.len();
    let mut lo: usize = 0;
    assert(cs@.subrange(0, n as int) =~= cs@);
    while lo < n && is_space(cs[lo])
        invariant
            lo <= n == cs@.len(),
            trim(cs@) == trim(cs@.subrange(lo as int, n as int)),
        decreases n - lo,
    {
        assert(cs@.subrange(lo as int, n as int).drop_first() =~= cs@.subrange(lo + 1, n as int));
        lo = lo + 1;
    }
    let mut hi: usize = n;
    while hi > lo && is_space(cs[hi - 1])
        invariant
            lo <= hi <= n == cs@.len(),
            lo < n ==> !is_ws(cs@[lo as int]),
            trim(cs@) == trim(cs@.subrange(lo as int, hi as int)),
        decreases hi - lo,
    {
        let ghost s = cs@.subrange(lo as int, hi as int);
        assert(s.drop_last() =~= cs@.subrange(lo as int, hi - 1));
        assert(s[0] == cs@[lo as int]);
        hi = hi - 1;
    }
    let mut r: Vec<char> = Vec::new();
    let mut i: usize = lo;
    while i < hi
        invariant
            lo <= i <= hi <= n == cs@.len(),
            r@ == cs@.subrange(lo as int, i as int),
        decreases hi - i,
    {
        r.push(cs[i]);
        i = i + 1;
        assert(r@ =~= cs@.subrange(lo as int, i as int));
    }
    proof {
        let s = cs@.subrange(lo as int, hi as int);
        if s.len() > 0 {
            assert(s[0] == cs@[lo as int]);
            assert(s.last() == cs@[hi - 1]);
        }
    }
    r
}

// ---------------------------------------------------------------- tokenizing

/// The tokenizer's state: tokens so far, the pending text and where it
/// starts, and whether a quote is open.
pub struct Lex {
    pub tokens: Seq<(usize, TokenV)>,
    pub buf: Seq<char>,
    pub start: usize,
    pub quoting: bool,
}

/// What pending text becomes: a string when quoted, else an integer if it
/// reads as one, else a symbol.
pub open spec fn token_of(buf: Seq<char>, is_str: bool) -> TokenV {
    if is_str {
        TokenV::Str(buf)
    } else {
        match int_of_text(buf) {
            Some(n) => TokenV::Integer(n),
            None => TokenV::Symbol(buf),
        }
    }
}

pub open spec fn flush(st: Lex, is_str: bool) -> Lex {
    if st.buf.len() == 0 {
        st
    } else {
        Lex { tokens: st.tokens.push((st.start, token_of(st.buf, is_str))), buf: Seq::empty(), ..st }
    }
}

pub open spec fn append(st: Lex, c: char, i: usize) -> Lex {
    Lex {
        buf: st.buf.push(c),
        start: if st.buf.len() == 0 {
            i
        } else {
            st.start
        },
        ..st
    }
}

pub open spec fn emit(st: Lex, i: usize, t: TokenV) -> Lex {
    let f = flush(st, false);
    Lex { tokens: f.tokens.push((i, t)), ..f }
}

/// One character, at byte offset `i`: a quote flushes and toggles quoting; while quoting every
/// other character is kept; parentheses and whitespace end the pending text.
pub open spec fn lex_step(st: Lex, c: char, i: usize) -> Lex {
    if c == '\'' {
        Lex { quoting: !st.quoting, ..flush(st, st.quoting) }
    } else if st.quoting {
        append(st, c, i)
    } else if c == '(' {
        emit(st, i, TokenV::LeftParen)
    } else if c == ')' {
        emit(st, i, TokenV::RightParen)
    } else if is_ws(c) {
        flush(st, false)
    } else {
        append(st, c, i)
    }
}

/// The state after the first `n` characters.
pub open spec fn lex_upto(cs: Seq<char>, n: nat) -> Lex
    decreases n,
{
    if n == 0 || n > cs.len() {
        Lex { tokens: Seq::empty(), buf: Seq::empty(), start: 0, quoting: false }
    } else {
        lex_step(lex_upto(cs, (n - 1) as nat), cs[n - 1], utf8_len(cs.subrange(0, n - 1)) as usize)
    }
}

/// The tokens of a text; pending text at the end is never a string.
pub open spec fn tokenize_spec(cs: Seq<char>) -> Seq<(usize, TokenV)> {
    flush(lex_upto(cs, cs.len()), false).tokens
}

struct TokenizerState {
    tokens: Vec<PositionalToken>,
    buffer: String,
    start: usize,
    quoting: bool,
}

impl View for TokenizerState {
    type V = Lex;

    closed spec fn view(&self) -> Lex {
        Lex { tokens: toks_view(self.tokens@), buf: self.buffer@, start: self.start, quoting: self.quoting }
    }
}

impl TokenizerState {
    fn append(&mut self, c: char, index: usize)
        ensures
            final(self)@ == append(old(self)@, c, index),
    {
        if is_empty_text(&self.buffer) {
            self.start = index;
        }
        push_char(&mut self.buffer, c);
    }

    fn try_push(&mut self, c: char, index: usize) -> (r: bool)
        ensures
            r == !old(self).quoting,
            final(self)@ == if old(self).quoting {
                append(old(self)@, c, index)
            } else {
                flush(old(self)@, false)
            },
    {
        if self.quoting {
            self.append(c, index);
            return false;
        }
        self.push_buffer(false);
        true
    }

    fn try_push_with(&mut self, c: char, index: usize, with: Token)
        ensures
            final(self)@ == if old(self).quoting {
                append(old(self)@, c, index)
            } else {
                emit(old(self)@, index, with@)
            },
    {
        if self.try_push(c, index) {
            let ghost before = self.tokens@;
            self.tokens.push((index, with));
            assert(toks_view(self.tokens@) =~= toks_view(before).push((index, with@)));
        }
    }

    fn push_buffer(&mut self, treat_as_str: bool)
        ensures
            final(self)@ == flush(old(self)@, treat_as_str),
    {
        if !is_empty_text(&self.buffer) {
            let t = get_token(&self.buffer, treat_as_str);
            let ghost before = self.tokens@;
            self.tokens.push((self.start, t));
            assert(toks_view(self.tokens@) =~= toks_view(before).push((self.start, t@)));
            self.buffer = String::new();
        }
    }
}

fn is_empty_text(s: &String) -> (r: bool)
    ensures
        r == (s@.len() == 0),
{
    s.as_str().unicode_len() == 0
}

fn get_token(token: &String, is_str: bool) -> (r: Token)
    ensures
        r@ == token_of(token@, is_str),
{
    if is_str {
        return Token::String(token.clone());
    }
    match parse_i64(token.as_str()) {
        Some(n) => Token::Integer(n),
        None => Token::Symbol(token.clone()),
    }
}

fn tokenize_chars(text: &Vec<char>) -> (r: Vec<PositionalToken>)
    requires
        utf8_len(text@) <= usize::MAX,
    ensures
        toks_view(r@) == tokenize_spec(text@),
{
    let mut state = TokenizerState { tokens: Vec::new(), buffer: String::new(), start: 0, quoting: false };
    assert(toks_view(state.tokens@) =~= Seq::empty());
    let n = text.len();
    let mut i: usize = 0;
    let mut offset: usize = 0;
    assert(text@.subrange(0, 0) =~= Seq::<char>::empty());
    while i < n
        invariant
            i <= n == text@.len(),
            utf8_len(text@) <= usize::MAX,
            offset == utf8_len(text@.subrange(0, i as int)),
            state@ == lex_upto(text@, i as nat),
        decreases n - i,
    {
        let c = text[i];
        if c == '\'' {
            let q = state.quoting;
            state.push_buffer(q);
            state.quoting = !q;
        } else if c == '(' {
            state.try_push_with(c, offset, Token::LeftParen);
        } else if c == ')' {
            state.try_push_with(c, offset, Token::RightParen);
        } else if is_space(c) {
            state.try_push(c, offset);
        } else {
            state.append(c, offset);
        }
        proof {
            assert(text@.subrange(0, i + 1).drop_last() =~= text@.subrange(0, i as int));
            lemma_utf8_len_subrange(text@, 0, i + 1);
        }
        offset = offset + char_width(c);
        i = i + 1;
    }
    state.push_buffer(false);
    state.tokens
}

/// The tokens of `text`, each with its byte offset.
pub fn tokenize(text: &str) -> (r: Vec<PositionalToken>)
    ensures
        toks_view(r@) == tokenize_spec(text@),
{
    let cs = chars_of(text);
    let _ = byte_len(text);
    tokenize_chars(&cs)
}

// ---------------------------------------------------------------- parsing

/// The three symbols that read as literals.
pub open spec fn symbol_value(s: Seq<char>) -> Val {
    if s == "true"@ {
        Val::Boolean(true)
    } else if s == "false"@ {
        Val::Boolean(false)
    } else if s == "nil"@ {
        Val::Nil
    } else {
        Val::Symbol(s)
    }
}

/// One form starting at token `pos`: the value and the position after it.
pub open spec fn parse_any_spec(t: Seq<(usize, TokenV)>, pos: int) -> Result<(Val, int), ParseErr>
    decreases t.len() - pos, 0int,
{
    if pos < 0 || pos >= t.len() {
        Err(ParseErr::ExpectedAnyGotEof)
    } else {
        match t[pos].1 {
            TokenV::LeftParen => parse_items_spec(t, pos + 1, Seq::empty()),
            TokenV::RightParen => Err(ParseErr::Unexpected(t[pos].0, TokenV::RightParen)),
            TokenV::Symbol(s) => Ok((symbol_value(s), pos + 1)),
            TokenV::Integer(n) => Ok((Val::Integer(n), pos + 1)),
            TokenV::Str(s) => Ok((Val::Str(s), pos + 1)),
        }
    }
}

/// The rest of a list whose first items, `acc`, have been read.
pub open spec fn parse_items_spec(t: Seq<(usize, TokenV)>, pos: int, acc: Seq<Val>) -> Result<
    (Val, int),
    ParseErr,
>
    decreases t.len() - pos, 1int,
{
    if pos < 0 || pos >= t.len() {
        Err(ParseErr::ExpectedAnyGotEof)
    } else if t[pos].1 is RightParen {
        Ok((Val::List(acc), pos + 1))
    } else {
        match parse_any_spec(t, pos) {
            Err(e) => Err(e),
            Ok((v, p)) => if pos < p <= t.len() {
                parse_items_spec(t, p, acc.push(v))
            } else {
                Err(ParseErr::ExpectedAnyGotEof)
            },
        }
    }
}

/// What a line of text reads as: its first form, after trimming; the rest is ignored.
pub open spec fn read_spec(text: Seq<char>) -> Result<Val, ParseErr> {
    match parse_any_spec(tokenize_spec(trim(text)), 0) {
        Ok((v, _)) => Ok(v),
        Err(e) => Err(e),
    }
}

pub open spec fn parsed(r: Result<(Ast, usize), ParserError>) -> Result<(Val, int), ParseErr> {
    match r {
        Ok((a, p)) => Ok((a@, p as int)),
        Err(e) => Err(e@),
    }
}

pub open spec fn kind(t: TokenV) -> int {
    match t {
        TokenV::LeftParen => 0,
        TokenV::RightParen => 1,
        TokenV::Symbol(_) => 2,
        TokenV::Integer(_) => 3,
        TokenV::Str(_) => 4,
    }
}

impl Token {
    pub fn copy(&self) -> (r: Token)
        ensures
            r@ == self@,
    {
        match self {
            Token::LeftParen => Token::LeftParen,
            Token::RightParen => Token::RightParen,
            Token::Symbol(s) => Token::Symbol(s.clone()),
            Token::Integer(n) => Token::Integer(*n),
            Token::String(s) => Token::String(s.clone()),
        }
    }

    /// Tokens of one kind are alike, whatever they hold.
    pub fn same_kind(&self, other: &Token) -> (r: bool)
        ensures
            r == (kind(self@) == kind(other@)),
    {
        match (self, other) {
            (Token::LeftParen, Token::LeftParen) => true,
            (Token::RightParen, Token::RightParen) => true,
            (Token::Symbol(_), Token::Symbol(_)) => true,
            (Token::Integer(_), Token::Integer(_)) => true,
            (Token::String(_), Token::String(_)) => true,
            _ => false,
        }
    }
}

/// Consumes the token at `pos`, which must be of the kind of `expected`.
fn expect(it: &Vec<PositionalToken>, pos: usize, expected: Token) -> (r: Result<usize, ParserError>)
    ensures
        pos >= it@.len() ==> r is Err && r->Err_0@ == ParseErr::ExpectedGotEof(expected@),
        pos < it@.len() && kind(it@[pos as int].1@) == kind(expected@) ==> r is Ok && r->Ok_0 == pos
            + 1,
        pos < it@.len() && kind(it@[pos as int].1@) != kind(expected@) ==> r is Err && r->Err_0@
            == ParseErr::ExpectedGot(it@[pos as int].0, expected@, it@[pos as int].1@),
{
    if pos >= it.len() {
        return Err(ParserError::ExpectedGotEof(expected));
    }
    let (i, t) = &it[pos];
    if t.same_kind(&expected) {
        Ok(pos + 1)
    } else {
        Err(ParserError::ExpectedGot(*i, expected, t.copy()))
    }
}

fn peek(it: &Vec<PositionalToken>, pos: usize) -> (r: Result<&Token, ParserError>)
    ensures
        pos >= it@.len() ==> r is Err && r->Err_0@ == ParseErr::ExpectedAnyGotEof,
        pos < it@.len() ==> r is Ok && *r->Ok_0 == it@[pos as int].1,
{
    if pos >= it.len() {
        Err(ParserError::ExpectedAnyGotEof)
    } else {
        Ok(&it[pos].1)
    }
}

fn next(it: &Vec<PositionalToken>, pos: usize) -> (r: Result<(&PositionalToken, usize), ParserError>)
    ensures
        pos >= it@.len() ==> r is Err && r->Err_0@ == ParseErr::ExpectedAnyGotEof,
        pos < it@.len() ==> r is Ok && *r->Ok_0.0 == it@[pos as int] && r->Ok_0.1 == pos + 1,
{
    if pos >= it.len() {
        Err(ParserError::ExpectedAnyGotEof)
    } else {
        Ok((&it[pos], pos + 1))
    }
}

fn parse_list(it: &Vec<PositionalToken>, pos: usize) -> (r: Result<(Ast, usize), ParserError>)
    requires
        pos < it@.len(),
        it@[pos as int].1@ is LeftParen,
    ensures
        parsed(r) == parse_any_spec(toks_view(it@), pos as int),
        r is Ok ==> pos < r->Ok_0.1 <= it@.len(),
    decreases it@.len() - pos, 0int,
{
    let ghost t = toks_view(it@);
    assert(kind(it@[pos as int].1@) == kind(Token::LeftParen@));
    let mut p = match expect(it, pos, Token::LeftParen) {
        Ok(p) => p,
        Err(e) => return Err(e),
    };
    assert(p == pos + 1);
    assert(t[pos as int] == (it@[pos as int].0, it@[pos as int].1@));
    assert(vals_of(Seq::<Ast>::empty()) =~= Seq::<Val>::empty());
    let mut items: Vec<Ast> = Vec::new();
    loop
        invariant
            pos < p <= it@.len(),
            t == toks_view(it@),
            t.len() == it@.len(),
            it@[pos as int].1@ is LeftParen,
            parse_items_spec(t, p as int, vals_of(items@)) == parse_any_spec(t, pos as int),
        ensures
            pos < p < it@.len(),
            it@[p as int].1@ is RightParen,
            t == toks_view(it@),
            parse_items_spec(t, p as int, vals_of(items@)) == parse_any_spec(t, pos as int),
        decreases it@.len() - p,
    {
        let tok = match peek(it, p) {
            Ok(tok) => tok,
            Err(e) => return Err(e),
        };
        if let Token::RightParen = tok {
            break;
        }
        assert(t[p as int] == (it@[p as int].0, it@[p as int].1@));
        let (v, p2) = match parse_any(it, p) {
            Ok(x) => x,
            Err(e) => return Err(e),
        };
        let ghost before = items@;
        items.push(v);
        assert(items@.drop_last() =~= before);
        p = p2;
    }
    assert(t[p as int] == (it@[p as int].0, it@[p as int].1@));
    let q = match expect(it, p, Token::RightParen) {
        Ok(q) => q,
        Err(e) => return Err(e),
    };
    Ok((Ast::List(items), q))
}

fn translate_symbol(symbol: &String) -> (r: Ast)
    ensures
        r@ == symbol_value(symbol@),
{
    if same_text(symbol.as_str(), "true") {
        Ast::Boolean(true)
    } else if same_text(symbol.as_str(), "false") {
        Ast::Boolean(false)
    } else if same_text(symbol.as_str(), "nil") {
        Ast::Nil
    } else {
        Ast::Symbol(symbol.clone())
    }
}

/// One token read as a value; a parenthesis there is an error.
fn parse_atom(it: &Vec<PositionalToken>, pos: usize) -> (r: Result<(Ast, usize), ParserError>)
    ensures
        pos < it@.len() && it@[pos as int].1@ is LeftParen ==> r is Err && r->Err_0@
            == ParseErr::Unexpected(it@[pos as int].0, TokenV::LeftParen),
        !(pos < it@.len() && it@[pos as int].1@ is LeftParen) ==> parsed(r) == parse_any_spec(
            toks_view(it@),
            pos as int,
        ),
        r is Ok ==> pos < r->Ok_0.1 <= it@.len(),
{
    let ghost t = toks_view(it@);
    if pos < it.len() {
        assert(t[pos as int] == (it@[pos as int].0, it@[pos as int].1@));
    }
    let (tok, p) = match next(it, pos) {
        Ok(x) => x,
        Err(e) => return Err(e),
    };
    match &tok.1 {
        Token::LeftParen => Err(ParserError::Unexpected(tok.0, Token::LeftParen)),
        Token::RightParen => Err(ParserError::Unexpected(tok.0, Token::RightParen)),
        Token::Symbol(s) => Ok((translate_symbol(s), p)),
        Token::Integer(n) => Ok((Ast::Integer(*n), p)),
        Token::String(s) => Ok((Ast::String(s.clone()), p)),
    }
}

fn parse_any(it: &Vec<PositionalToken>, pos: usize) -> (r: Result<(Ast, usize), ParserError>)
    ensures
        parsed(r) == parse_any_spec(toks_view(it@), pos as int),
        r is Ok ==> pos < r->Ok_0.1 <= it@.len(),
    decreases it@.len() - pos, 1int,
{
    let ghost t = toks_view(it@);
    let next = match peek(it, pos) {
        Ok(tok) => tok,
        Err(e) => return Err(e),
    };
    assert(t[pos as int] == (it@[pos as int].0, it@[pos as int].1@));
    if let Token::LeftParen = next {
        parse_list(it, pos)
    } else {
        parse_atom(it, pos)
    }
}

/// Reads the first form of a line of text.
pub fn read_form(text: &str) -> (r: Result<Ast, ParserError>)
    ensures
        match read_spec(text@) {
            Ok(v) => r is Ok && r->Ok_0@ == v,
            Err(e) => r is Err && r->Err_0@ == e,
        },
{
    let cs = chars_of(text);
    let _ = byte_len(text);
    let trimmed = trim_chars(&cs);
    proof {
        lemma_trim_len(cs@);
    }
    let tokens = tokenize_chars(&trimmed);
    match parse_any(&tokens, 0) {
        Ok((v, _)) => Ok(v),
        Err(e) => Err(e),
    }
}

} // verus!
