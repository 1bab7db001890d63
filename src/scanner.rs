use vstd::prelude::*;
use crate::text::{chars_of, is_alpha, is_digit, string_of};
use crate::token::{Token, TokenType};

verus! {

/// What a token is, as mathematical values.
pub struct TokenModel {
    pub kind: TokenType,
    pub lexeme: Seq<char>,
    pub line: nat,
    pub column: nat,
}

impl View for Token {
    type V = TokenModel;

    open spec fn view(&self) -> TokenModel {
        TokenModel {
            kind: self.token_type,
            lexeme: self.lexeme@,
            line: self.line_number as nat,
            column: self.column_number as nat,
        }
    }
}

/// Whether `c` is an ASCII letter or digit.
pub open spec fn is_alnum(c: char) -> bool {
    is_alpha(c) || is_digit(c)
}

/// The first index at or after `i` that does not hold a digit.
pub open spec fn skip_digits(src: Seq<char>, i: int) -> int
    decreases src.len() - i,
{
    if 0 <= i < src.len() && is_digit(src[i]) { skip_digits(src, i + 1) } else { i }
}

/// The first index at or after `i` that does not hold a letter or digit.
pub open spec fn skip_alnum(src: Seq<char>, i: int) -> int
    decreases src.len() - i,
{
    if 0 <= i < src.len() && is_alnum(src[i]) { skip_alnum(src, i + 1) } else { i }
}

/// The first index at or after `i` that holds `stop`, or the length.
pub open spec fn find_char(src: Seq<char>, i: int, stop: char) -> int
    decreases src.len() - i,
{
    if 0 <= i < src.len() && src[i] != stop { find_char(src, i + 1, stop) } else { i }
}

/// The keyword that `word` spells, or `Identifier`.
pub open spec fn keyword_kind(word: Seq<char>) -> TokenType {
    if word == "and"@ { TokenType::And }
    else if word == "class"@ { TokenType::Class }
    else if word == "else"@ { TokenType::Else }
    else if word == "false"@ { TokenType::False }
    else if word == "for"@ { TokenType::For }
    else if word == "fun"@ { TokenType::Fun }
    else if word == "if"@ { TokenType::If }
    else if word == "nil"@ { TokenType::Nil }
    else if word == "or"@ { TokenType::Or }
    else if word == "print"@ { TokenType::Print }
    else if word == "return"@ { TokenType::Return }
    else if word == "super"@ { TokenType::Super }
    else if word == "this"@ { TokenType::This }
    else if word == "true"@ { TokenType::True }
    else if word == "var"@ { TokenType::Var }
    else if word == "while"@ { TokenType::While }
    else { TokenType::Identifier }
}

/// The kind of a one-character token starting with `c`, if `c` starts one
/// that never extends.
pub open spec fn single_kind(c: char) -> Option<TokenType> {
    if c == '(' { Some(TokenType::LeftParen) }
    else if c == ')' { Some(TokenType::RightParen) }
    else if c == '{' { Some(TokenType::LeftBrace) }
    else if c == '}' { Some(TokenType::RightBrace) }
    else if c == ',' { Some(TokenType::Comma) }
    else if c == '.' { Some(TokenType::Dot) }
    else if c == '-' { Some(TokenType::Minus) }
    else if c == '+' { Some(TokenType::Plus) }
    else if c == ';' { Some(TokenType::Semicolon) }
    else if c == '*' { Some(TokenType::Star) }
    else if c == ' ' || c == '\t' || c == '\r' { Some(TokenType::Whitespace) }
    else if c == '\n' { Some(TokenType::Newline) }
    else { None }
}

/// Whether the character at `i` exists and is `c`.
pub open spec fn char_is(src: Seq<char>, i: int, c: char) -> bool {
    0 <= i < src.len() && src[i] == c
}

/// The kind and the end of the token that starts at `i` (`i < src.len()`).
pub open spec fn lex_at(src: Seq<char>, i: int) -> (TokenType, int) {
    let c = src[i];
    if single_kind(c) is Some {
        (single_kind(c)->0, i + 1)
    } else if c == '!' {
        if char_is(src, i + 1, '=') { (TokenType::BangEqual, i + 2) } else { (TokenType::Bang, i + 1) }
    } else if c == '=' {
        if char_is(src, i + 1, '=') { (TokenType::EqualEqual, i + 2) } else { (TokenType::Equal, i + 1) }
    } else if c == '<' {
        if char_is(src, i + 1, '=') { (TokenType::LessEqual, i + 2) } else { (TokenType::Less, i + 1) }
    } else if c == '>' {
        if char_is(src, i + 1, '=') { (TokenType::GreaterEqual, i + 2) } else { (TokenType::Greater, i + 1) }
    } else if c == '/' {
        if char_is(src, i + 1, '/') { (TokenType::Comment, find_char(src, i + 2, '\n')) } else { (TokenType::Slash, i + 1) }
    } else if c == '"' {
        let q = find_char(src, i + 1, '"');
        if q < src.len() { (TokenType::Str, q + 1) } else { (TokenType::Unknown, q) }
    } else if is_digit(c) {
        let d = skip_digits(src, i + 1);
        if char_is(src, d, '.') && 0 <= d + 1 < src.len() && is_digit(src[d + 1]) {
            (TokenType::Float, skip_digits(src, d + 1))
        } else {
            (TokenType::Integer, d)
        }
    } else if is_alpha(c) {
        let e = skip_alnum(src, i + 1);
        (keyword_kind(src.subrange(i, e)), e)
    } else {
        (TokenType::Unknown, i + 1)
    }
}

proof fn lemma_skips(src: Seq<char>, i: int, stop: char)
    requires
        0 <= i <= src.len(),
    ensures
        i <= skip_digits(src, i) <= src.len(),
        i <= skip_alnum(src, i) <= src.len(),
        i <= find_char(src, i, stop) <= src.len(),
    decreases src.len() - i,
{
    if i < src.len() {
        lemma_skips(src, i + 1, stop);
    }
}

/// The token that starts at `i` ends after it and within the source.
pub proof fn lemma_lex_at_bounds(src: Seq<char>, i: int)
    requires
        0 <= i < src.len(),
    ensures
        i < lex_at(src, i).1 <= src.len(),
{
    lemma_skips(src, i + 1, '"');
    lemma_skips(src, i + 1, '\n');
    if i + 2 <= src.len() {
        lemma_skips(src, i + 2, '\n');
    }
    let d = skip_digits(src, i + 1);
    if 0 <= d + 1 < src.len() {
        lemma_skips(src, d + 1, '"');
    }
}

/// The tokens of `src[i..]`, the first at the given line and column, ending
/// with one `Eof` token.
pub open spec fn scan_from(src: Seq<char>, i: int, line: nat, column: nat) -> Seq<TokenModel>
    decreases src.len() - i,
{
    if 0 <= i < src.len() {
        let (kind, end) = lex_at(src, i);
        // `lemma_lex_at_bounds` shows that `i < end <= src.len()` always holds.
        let end = if i < end <= src.len() { end } else { src.len() as int };
        let tok = TokenModel { kind, lexeme: src.subrange(i, end), line, column };
        if kind == TokenType::Newline {
            seq![tok] + scan_from(src, end, line + 1, 0)
        } else {
            seq![tok] + scan_from(src, end, line, (column + (end - i)) as nat)
        }
    } else {
        seq![TokenModel { kind: TokenType::Eof, lexeme: Seq::empty(), line, column }]
    }
}

/// The tokens of a whole source text.
pub open spec fn scan(src: Seq<char>) -> Seq<TokenModel> {
    scan_from(src, 0, 1, 0)
}

/// The lexemes of `ts`, one after another.
pub open spec fn joined(ts: Seq<TokenModel>) -> Seq<char>
    decreases ts.len(),
{
    if ts.len() == 0 { Seq::empty() } else { ts[0].lexeme + joined(ts.drop_first()) }
}

} // verus!

verus! {

proof fn lemma_joined_from(src: Seq<char>, i: int, line: nat, column: nat)
    requires
        0 <= i <= src.len(),
    ensures
        joined(scan_from(src, i, line, column)) == src.subrange(i, src.len() as int),
    decreases src.len() - i,
{
    let ts = scan_from(src, i, line, column);
    if i < src.len() {
        lemma_lex_at_bounds(src, i);
        let (kind, end) = lex_at(src, i);
        let (nl, nc) = if kind == TokenType::Newline { (line + 1, 0nat) } else { (line, (column + (end - i)) as nat) };
        lemma_joined_from(src, end, nl, nc);
        assert(ts.drop_first() =~= scan_from(src, end, nl, nc));
        assert(src.subrange(i, end) + src.subrange(end, src.len() as int) =~= src.subrange(i, src.len() as int));
    } else {
        assert(ts.drop_first() =~= Seq::<TokenModel>::empty());
        assert(joined(ts.drop_first()) =~= Seq::<char>::empty());
        assert(src.subrange(i, src.len() as int) =~= Seq::<char>::empty());
    }
}

/// Scanning loses and adds nothing: the lexemes of the tokens of a source
/// text, one after another, are that text.
pub proof fn lemma_scan_reconstructs_source(src: Seq<char>)
    ensures
        joined(scan(src)) == src,
{
    lemma_joined_from(src, 0, 1, 0);
    assert(src.subrange(0, src.len() as int) =~= src);
}

} // verus!

verus! {

/// A cursor over the characters of a source text.
pub struct Scanner {
    chars: Vec<char>,
    start: usize,
    current: usize,
    line_number: u32,
    column_number: u32,
}

/// Whether `c` is an ASCII decimal digit.
fn digit(c: char) -> (r: bool)
    ensures
        r == is_digit(c),
{
    '0' <= c && c <= '9'
}

/// Whether `c` is an ASCII letter or digit.
fn alnum(c: char) -> (r: bool)
    ensures
        r == is_alnum(c),
{
    ('a' <= c && c <= 'z') || ('A' <= c && c <= 'Z') || ('0' <= c && c <= '9')
}

impl Scanner {
    /// The source text being scanned.
    pub closed spec fn source(&self) -> Seq<char> {
        self.chars@
    }

    /// The cursor sits between tokens, within a source short enough for
    /// its positions to fit in `u32`.
    pub closed spec fn wf(&self) -> bool {
        &&& self.chars@.len() < u32::MAX
        &&& self.start == self.current
        &&& self.current <= self.chars@.len()
        &&& self.line_number + self.column_number <= self.current + 1
    }

    /// The tokens that are still to come, the last of them `Eof`.
    pub closed spec fn rest(&self) -> Seq<TokenModel> {
        scan_from(self.chars@, self.current as int, self.line_number as nat, self.column_number as nat)
    }

    /// Whether every character has been consumed.
    pub closed spec fn done(&self) -> bool {
        self.current >= self.chars@.len()
    }

    /// A scanner at the start of `source`.
    pub fn new(source: &str) -> (r: Scanner)
        requires
            source@.len() < u32::MAX,
        ensures
            r.wf(),
            r.source() == source@,
            r.rest() == scan(source@),
    {
        Scanner { chars: chars_of(source), start: 0, current: 0, line_number: 1, column_number: 0 }
    }

    /// Consumes the next character, if there is one.
    fn advance(&mut self) -> (r: Option<char>)
        requires
            old(self).current <= old(self).chars@.len(),
        ensures
            final(self).chars == old(self).chars,
            final(self).start == old(self).start,
            final(self).line_number == old(self).line_number,
            final(self).column_number == old(self).column_number,
            old(self).current < old(self).chars@.len() ==> r == Some(old(self).chars@[old(self).current as int])
                && final(self).current == old(self).current + 1,
            old(self).current >= old(self).chars@.len() ==> r is None && final(self).current == old(self).current,
    {
        if self.current < self.chars.len() {
            let c = self.chars[self.current];
            self.current = self.current + 1;
            Some(c)
        } else {
            None
        }
    }

    /// Whether the character at the cursor exists and is `c`.
    fn peek_is(&self, c: char) -> (r: bool)
        ensures
            r == char_is(self.chars@, self.current as int, c),
    {
        self.current < self.chars.len() && self.chars[self.current] == c
    }

    /// Consumes characters up to, not including, the next `stop`.
    fn consume_until(&mut self, stop: char)
        requires
            old(self).current <= old(self).chars@.len(),
        ensures
            final(self).chars == old(self).chars,
            final(self).start == old(self).start,
            final(self).line_number == old(self).line_number,
            final(self).column_number == old(self).column_number,
            final(self).current == find_char(old(self).chars@, old(self).current as int, stop),
    {
        while self.current < self.chars.len() && self.chars[self.current] != stop
            invariant
                self.chars == old(self).chars,
                self.start == old(self).start,
                self.line_number == old(self).line_number,
                self.column_number == old(self).column_number,
                old(self).current <= self.current <= self.chars@.len(),
                find_char(self.chars@, self.current as int, stop)
                    == find_char(old(self).chars@, old(self).current as int, stop),
            decreases self.chars@.len() - self.current,
        {
            self.advance();
        }
    }

    /// Consumes a string literal whose opening quote is consumed already,
    /// with its closing quote; `Unknown` where the source ends first.
    fn consume_string(&mut self) -> (r: TokenType)
        requires
            old(self).current <= old(self).chars@.len(),
        ensures
            final(self).chars == old(self).chars,
            final(self).start == old(self).start,
            final(self).line_number == old(self).line_number,
            final(self).column_number == old(self).column_number,
            ({
                let q = find_char(old(self).chars@, old(self).current as int, '"');
                if q < old(self).chars@.len() {
                    r == TokenType::Str && final(self).current == q + 1
                } else {
                    r == TokenType::Unknown && final(self).current == q
                }
            }),
    {
        self.consume_until('"');
        if self.current < self.chars.len() {
            self.advance();
            TokenType::Str
        } else {
            TokenType::Unknown
        }
    }

    /// Consumes digits.
    fn consume_digits(&mut self)
        requires
            old(self).current <= old(self).chars@.len(),
        ensures
            final(self).chars == old(self).chars,
            final(self).start == old(self).start,
            final(self).line_number == old(self).line_number,
            final(self).column_number == old(self).column_number,
            final(self).current == skip_digits(old(self).chars@, old(self).current as int),
    {
        while self.current < self.chars.len() && digit(self.chars[self.current])
            invariant
                self.chars == old(self).chars,
                self.start == old(self).start,
                self.line_number == old(self).line_number,
                self.column_number == old(self).column_number,
                old(self).current <= self.current <= self.chars@.len(),
                skip_digits(self.chars@, self.current as int)
                    == skip_digits(old(self).chars@, old(self).current as int),
            decreases self.chars@.len() - self.current,
        {
            self.advance();
        }
    }

    /// Consumes the rest of a number whose first digit is consumed already,
    /// and tells an integer from a float.
    fn consume_number(&mut self) -> (r: TokenType)
        requires
            old(self).current <= old(self).chars@.len(),
        ensures
            final(self).chars == old(self).chars,
            final(self).start == old(self).start,
            final(self).line_number == old(self).line_number,
            final(self).column_number == old(self).column_number,
            ({
                let src = old(self).chars@;
                let d = skip_digits(src, old(self).current as int);
                if char_is(src, d, '.') && 0 <= d + 1 < src.len() && is_digit(src[d + 1]) {
                    r == TokenType::Float && final(self).current == skip_digits(src, d + 1)
                } else {
                    r == TokenType::Integer && final(self).current == d
                }
            }),
    {
        self.consume_digits();
        proof { lemma_skips(self.chars@, old(self).current as int, '"'); }
        if self.current < self.chars.len() && self.peek_is('.') && self.current + 1 < self.chars.len() && digit(self.chars[self.current + 1]) {
            self.advance();
            self.consume_digits();
            TokenType::Float
        } else {
            TokenType::Integer
        }
    }

    /// Consumes the rest of an identifier whose first letter is consumed
    /// already.
    fn consume_identifier(&mut self)
        requires
            old(self).current <= old(self).chars@.len(),
        ensures
            final(self).chars == old(self).chars,
            final(self).start == old(self).start,
            final(self).line_number == old(self).line_number,
            final(self).column_number == old(self).column_number,
            final(self).current == skip_alnum(old(self).chars@, old(self).current as int),
    {
        while self.current < self.chars.len() && alnum(self.chars[self.current])
            invariant
                self.chars == old(self).chars,
                self.start == old(self).start,
                self.line_number == old(self).line_number,
                self.column_number == old(self).column_number,
                old(self).current <= self.current <= self.chars@.len(),
                skip_alnum(self.chars@, self.current as int)
                    == skip_alnum(old(self).chars@, old(self).current as int),
            decreases self.chars@.len() - self.current,
        {
            self.advance();
        }
    }

    /// Whether the current lexeme spells `word`.
    fn lexeme_is(&self, word: &str) -> (r: bool)
        requires
            self.start <= self.current <= self.chars@.len(),
        ensures
            r == (self.chars@.subrange(self.start as int, self.current as int) == word@),
    {
        let n = word.unicode_len();
        if n != self.current - self.start {
            return false;
        }
        let mut k: usize = 0;
        while k < n
            invariant
                n == word@.len(),
                n == self.current - self.start,
                self.start <= self.current <= self.chars@.len(),
                k <= n,
                forall|j: int| 0 <= j < k ==> self.chars@[self.start + j] == word@[j],
            decreases n - k,
        {
            if self.chars[self.start + k] != word.get_char(k) {
                return false;
            }
            k = k + 1;
        }
        assert(self.chars@.subrange(self.start as int, self.current as int) =~= word@);
        true
    }

    /// The keyword that the current lexeme spells, or `Identifier`.
    fn identifier_token_type(&self) -> (r: TokenType)
        requires
            self.start <= self.current <= self.chars@.len(),
        ensures
            r == keyword_kind(self.chars@.subrange(self.start as int, self.current as int)),
    {
        if self.lexeme_is("and") { TokenType::And }
        else if self.lexeme_is("class") { TokenType::Class }
        else if self.lexeme_is("else") { TokenType::Else }
        else if self.lexeme_is("false") { TokenType::False }
        else if self.lexeme_is("for") { TokenType::For }
        else if self.lexeme_is("fun") { TokenType::Fun }
        else if self.lexeme_is("if") { TokenType::If }
        else if self.lexeme_is("nil") { TokenType::Nil }
        else if self.lexeme_is("or") { TokenType::Or }
        else if self.lexeme_is("print") { TokenType::Print }
        else if self.lexeme_is("return") { TokenType::Return }
        else if self.lexeme_is("super") { TokenType::Super }
        else if self.lexeme_is("this") { TokenType::This }
        else if self.lexeme_is("true") { TokenType::True }
        else if self.lexeme_is("var") { TokenType::Var }
        else if self.lexeme_is("while") { TokenType::While }
        else { TokenType::Identifier }
    }
}


/// The kind of a one-character token that never extends.
fn single_kind_of(c: char) -> (r: Option<TokenType>)
    ensures
        r == single_kind(c),
{
    if c == '(' { Some(TokenType::LeftParen) }
    else if c == ')' { Some(TokenType::RightParen) }
    else if c == '{' { Some(TokenType::LeftBrace) }
    else if c == '}' { Some(TokenType::RightBrace) }
    else if c == ',' { Some(TokenType::Comma) }
    else if c == '.' { Some(TokenType::Dot) }
    else if c == '-' { Some(TokenType::Minus) }
    else if c == '+' { Some(TokenType::Plus) }
    else if c == ';' { Some(TokenType::Semicolon) }
    else if c == '*' { Some(TokenType::Star) }
    else if c == ' ' || c == '\t' || c == '\r' { Some(TokenType::Whitespace) }
    else if c == '\n' { Some(TokenType::Newline) }
    else { None }
}

impl Scanner {
    /// The characters from `from` to `to` as a string.
    fn text(&self, from: usize, to: usize) -> (r: String)
        requires
            from <= to <= self.chars@.len(),
        ensures
            r@ == self.chars@.subrange(from as int, to as int),
    {
        let mut v: Vec<char> = Vec::new();
        let mut k: usize = from;
        while k < to
            invariant
                from <= k <= to <= self.chars@.len(),
                v@ == self.chars@.subrange(from as int, k as int),
            decreases to - k,
        {
            v.push(self.chars[k]);
            k = k + 1;
            assert(v@ =~= self.chars@.subrange(from as int, k as int));
        }
        string_of(&v)
    }

    /// After `c`, consumed already: a two-character kind where `=` follows,
    /// else the one-character kind.
    fn with_equal(&mut self, two: TokenType, one: TokenType) -> (r: TokenType)
        requires
            old(self).current <= old(self).chars@.len(),
        ensures
            final(self).chars == old(self).chars,
            final(self).start == old(self).start,
            final(self).line_number == old(self).line_number,
            final(self).column_number == old(self).column_number,
            if char_is(old(self).chars@, old(self).current as int, '=') {
                r == two && final(self).current == old(self).current + 1
            } else {
                r == one && final(self).current == old(self).current
            },
    {
        if self.peek_is('=') {
            self.advance();
            two
        } else {
            one
        }
    }

    /// Scans the token at the cursor, or gives `None` at the end.
    fn scan_token(&mut self) -> (r: Option<Token>)
        requires
            old(self).wf(),
        ensures
            final(self).wf(),
            final(self).chars == old(self).chars,
            old(self).done() ==> r is None && *final(self) == *old(self),
            !old(self).done() ==> r is Some && final(self).current > old(self).current
                && old(self).rest() == seq![r->0@] + final(self).rest(),
    {
        let ghost src = self.chars@;
        let ghost i = self.current as int;
        let c = match self.advance() {
            Some(c) => c,
            None => return None,
        };
        proof {
            lemma_lex_at_bounds(src, i);
        }
        let kind = match single_kind_of(c) {
            Some(k) => k,
            None => {
                if c == '!' {
                    self.with_equal(TokenType::BangEqual, TokenType::Bang)
                } else if c == '=' {
                    self.with_equal(TokenType::EqualEqual, TokenType::Equal)
                } else if c == '<' {
                    self.with_equal(TokenType::LessEqual, TokenType::Less)
                } else if c == '>' {
                    self.with_equal(TokenType::GreaterEqual, TokenType::Greater)
                } else if c == '/' {
                    if self.peek_is('/') {
                        self.advance();
                        self.consume_until('\n');
                        TokenType::Comment
                    } else {
                        TokenType::Slash
                    }
                } else if c == '"' {
                    self.consume_string()
                } else if digit(c) {
                    self.consume_number()
                } else if ('a' <= c && c <= 'z') || ('A' <= c && c <= 'Z') {
                    self.consume_identifier();
                    self.identifier_token_type()
                } else {
                    TokenType::Unknown
                }
            },
        };
        assert(kind == lex_at(src, i).0 && self.current == lex_at(src, i).1);
        let lexeme = self.text(self.start, self.current);
        let line_number = self.line_number;
        let column_number = self.column_number;
        if kind == TokenType::Newline {
            self.line_number = self.line_number + 1;
            self.column_number = 0;
        } else {
            self.column_number = self.column_number + (self.current - self.start) as u32;
        }
        self.start = self.current;
        let token = Token { token_type: kind, lexeme, line_number, column_number };
        assert(old(self).rest() =~= seq![token@] + self.rest());
        Some(token)
    }
}

/// The tokens of `source`, trivia included, ending with one `Eof` token.
pub fn scan_tokens(source: &String) -> (tokens: Vec<Token>)
    requires
        source@.len() < u32::MAX,
    ensures
        tokens@.map_values(|t: Token| t@) == scan(source@),
{
    let mut tokens: Vec<Token> = Vec::new();
    let mut scanner = Scanner::new(source.as_str());
    loop
        invariant
            scanner.wf(),
            scanner.source() == source@,
            tokens@.map_values(|t: Token| t@) + scanner.rest() == scan(source@),
        ensures
            scanner.wf(),
            scanner.done(),
            tokens@.map_values(|t: Token| t@) + scanner.rest() == scan(source@),
        decreases scanner.source().len() - scanner.current,
    {
        let ghost before = tokens@.map_values(|t: Token| t@);
        match scanner.scan_token() {
            Some(token) => {
                tokens.push(token);
                assert(tokens@.map_values(|t: Token| t@) =~= before.push(token@));
            },
            None => break,
        }
    }
    let eof = Token {
        token_type: TokenType::Eof,
        lexeme: String::new(),
        line_number: scanner.line_number,
        column_number: scanner.column_number,
    };
    let ghost before = tokens@.map_values(|t: Token| t@);
    tokens.push(eof);
    assert(tokens@.map_values(|t: Token| t@) =~= before.push(eof@));
    assert(scanner.rest() =~= seq![eof@]);
    tokens
}
} // verus!
