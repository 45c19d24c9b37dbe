use vstd::prelude::*;

use crate::cursor::{item_or_end, Cursor, ToCursor};
use crate::error::Error;

use self::token::{
    is_digit, is_ident_continue, is_ident_start, keyword_kind, punctuation_kind, Identifier,
    Token, TokenKind, TokenRepresentation,
};

pub mod token;

verus! {

/// Whether a character has the Unicode White_Space property.
pub uninterp spec fn white_space(c: char) -> bool;

/// Whether a character is in one of Unicode's number categories.
pub uninterp spec fn numeric(c: char) -> bool;

/// Whitespace as the lexer skips it: among ASCII characters the space, tab,
/// line feed, vertical tab, form feed and carriage return.
pub open spec fn is_space(c: char) -> bool {
    if (c as u32) < 128 {
        c == ' ' || ('\t' <= c <= '\r')
    } else {
        white_space(c)
    }
}

/// The characters that start a number: among ASCII characters the digits.
pub open spec fn starts_number(c: char) -> bool {
    if (c as u32) < 128 {
        is_digit(c)
    } else {
        numeric(c)
    }
}

/// Relies on char::is_whitespace: the White_Space property, which among ASCII
/// characters holds of the space and of tab, line feed, vertical tab, form
/// feed and carriage return.
#[verifier::external_body]
fn is_whitespace(c: char) -> (r: bool)
    ensures
        r == is_space(c),
        (c as u32) >= 128 ==> r == white_space(c),
{
    c.is_whitespace()
}

/// Relies on char::is_numeric: the categories Nd, Nl and No, which among
/// ASCII characters hold of the digits alone.
#[verifier::external_body]
fn is_numeric(c: char) -> (r: bool)
    ensures
        r == starts_number(c),
        (c as u32) >= 128 ==> r == numeric(c),
{
    c.is_numeric()
}

fn is_ascii_digit(c: char) -> (r: bool)
    ensures
        r == is_digit(c),
{
    '0' <= c && c <= '9'
}

fn continues_identifier(c: char) -> (r: bool)
    ensures
        r == is_ident_continue(c),
{
    c.is_identifier_continue()
}

fn is_not_quote(c: char) -> (r: bool)
    ensures
        r == (c != '"'),
{
    c != '"'
}

/// The character at `i`, or `'\0'` past the end, as the lexer's cursor reads it.
pub open spec fn char_at(s: Seq<char>, i: int) -> char {
    item_or_end(s, i, '\0')
}

/// The first position at or after `i` where `p` fails or the text ends.
pub open spec fn skip_run(s: Seq<char>, i: int, p: spec_fn(char) -> bool) -> int
    decreases s.len() - i,
{
    if 0 <= i < s.len() && p(s[i]) {
        skip_run(s, i + 1, p)
    } else {
        i
    }
}

pub open spec fn space_pred() -> spec_fn(char) -> bool {
    |c: char| is_space(c)
}

pub open spec fn digit_pred() -> spec_fn(char) -> bool {
    |c: char| is_digit(c)
}

pub open spec fn ident_pred() -> spec_fn(char) -> bool {
    |c: char| is_ident_continue(c)
}

pub open spec fn not_quote_pred() -> spec_fn(char) -> bool {
    |c: char| c != '"'
}

/// Where a number that started before `i` ends: a digit run, then a dot and
/// a second digit run only when a digit follows the dot.
pub open spec fn number_end(s: Seq<char>, i: int) -> int {
    let j = skip_run(s, i, digit_pred());
    if char_at(s, j) == '.' && is_digit(char_at(s, j + 1)) {
        skip_run(s, j + 1, digit_pred())
    } else {
        j
    }
}

/// The kind of an operator that starts with `c`, given the character after it,
/// and whether that character belongs to it.
pub open spec fn operator_kind(c: char, next: char) -> (TokenKind, bool) {
    if next == '=' && c == '!' {
        (TokenKind::BangEqual, true)
    } else if next == '=' && c == '<' {
        (TokenKind::LessEqual, true)
    } else if next == '=' && c == '>' {
        (TokenKind::GreaterEqual, true)
    } else if next == '=' && c == '=' {
        (TokenKind::EqualEqual, true)
    } else {
        (punctuation_kind(c), false)
    }
}

/// The kind and end of the token that starts at `start`; `NoToken` for a
/// character that starts no token.
pub open spec fn scan_token(s: Seq<char>, start: int) -> Result<(TokenKind, int), Error> {
    let c = char_at(s, start);
    let i = start + 1;
    if starts_number(c) {
        Ok((TokenKind::Number, number_end(s, i)))
    } else if is_ident_start(c) {
        let e = skip_run(s, i, ident_pred());
        let k = keyword_kind(s.subrange(start, e));
        Ok((if k == TokenKind::NoToken { TokenKind::Identifier } else { k }, e))
    } else if c == '"' {
        let e = skip_run(s, i, not_quote_pred());
        if e < s.len() {
            Ok((TokenKind::String, e + 1))
        } else {
            Err(Error::UnterminatedString)
        }
    } else {
        let (k, two) = operator_kind(c, char_at(s, i));
        Ok((k, if two { i + 1 } else { i }))
    }
}

pub open spec fn prepend(p: Seq<Token>, r: Result<Seq<Token>, Error>) -> Result<Seq<Token>, Error> {
    match r {
        Ok(rest) => Ok(p + rest),
        Err(e) => Err(e),
    }
}

/// The tokens of `s` from position `pos` on: whitespace is skipped, and a
/// character that starts no token is dropped.
pub open spec fn scan(s: Seq<char>, pos: int) -> Result<Seq<Token>, Error>
    decreases s.len() - pos,
{
    if pos < 0 || pos >= s.len() {
        Ok(seq![])
    } else {
        let start = skip_run(s, pos, space_pred());
        if start >= s.len() {
            Ok(seq![])
        } else {
            match scan_token(s, start) {
                Err(e) => Err(e),
                Ok((kind, end)) => {
                    if end <= pos || end > s.len() {
                        Ok(seq![])
                    } else {
                        let here = if kind == TokenKind::NoToken {
                            seq![]
                        } else {
                            seq![Token { kind, offset: start as usize, end: end as usize }]
                        };
                        prepend(here, scan(s, end))
                    }
                },
            }
        }
    }
}

/// The tokens of a whole source text.
pub open spec fn lex(s: Seq<char>) -> Result<Seq<Token>, Error> {
    scan(s, 0)
}

pub proof fn lemma_skip_run(s: Seq<char>, i: int, j: int, p: spec_fn(char) -> bool)
    requires
        0 <= i <= j <= s.len(),
        forall|k: int| i <= k < j ==> #[trigger] p(s[k]),
        j == s.len() || !p(s[j]),
    ensures
        skip_run(s, i, p) == j,
    decreases j - i,
{
    if i < j {
        lemma_skip_run(s, i + 1, j, p);
    }
}

pub proof fn lemma_skip_run_bounds(s: Seq<char>, i: int, p: spec_fn(char) -> bool)
    requires
        0 <= i <= s.len(),
    ensures
        i <= skip_run(s, i, p) <= s.len(),
        forall|k: int| i <= k < skip_run(s, i, p) ==> #[trigger] p(s[k]),
        skip_run(s, i, p) == s.len() || !p(s[skip_run(s, i, p)]),
    decreases s.len() - i,
{
    if i < s.len() && p(s[i]) {
        lemma_skip_run_bounds(s, i + 1, p);
    }
}

pub proof fn lemma_scan_token_advances(s: Seq<char>, start: int)
    requires
        0 <= start < s.len(),
    ensures
        scan_token(s, start) matches Ok((_, end)) ==> start < end <= s.len(),
{
    lemma_skip_run_bounds(s, start + 1, digit_pred());
    lemma_skip_run_bounds(s, start + 1, ident_pred());
    lemma_skip_run_bounds(s, start + 1, not_quote_pred());
    let j = skip_run(s, start + 1, digit_pred());
    if char_at(s, j) == '.' && is_digit(char_at(s, j + 1)) {
        lemma_skip_run_bounds(s, j + 1, digit_pred());
    }
}

struct Lexer<'a> {
    source: &'a str,
    cursor: Cursor<char>,
}

impl<'a> Lexer<'a> {
    spec fn wf(&self) -> bool {
        &&& self.cursor.wf()
        &&& self.cursor.items() == self.source@
        &&& self.cursor.terminator() == '\0'
    }

    spec fn text(&self) -> Seq<char> {
        self.source@
    }

    spec fn pos(&self) -> int {
        self.cursor.position()
    }

    fn new(source: &'a str) -> (r: Lexer<'a>)
        ensures
            r.wf(),
            r.source == source,
            r.pos() == 0,
    {
        let n = source.unicode_len();
        let mut chars: Vec<char> = Vec::new();
        let mut i: usize = 0;
        while i < n
            invariant
                n == source@.len(),
                i <= n,
                chars@ == source@.subrange(0, i as int),
            decreases n - i,
        {
            chars.push(source.get_char(i));
            assert(chars@ == source@.subrange(0, i + 1));
            i += 1;
        }
        assert(chars@ == source@);
        let cursor = chars.to_cursor('\0');
        Lexer { cursor, source }
    }

    fn tokenize(&mut self) -> (r: Result<Vec<Token>, Error>)
        requires
            old(self).wf(),
            old(self).pos() == 0,
        ensures
            match r {
                Ok(v) => lex(old(self).text()) == Ok::<Seq<Token>, Error>(v@),
                Err(e) => lex(old(self).text()) == Err::<Seq<Token>, Error>(e),
            },
    {
        let ghost s = self.text();
        assert(s == old(self).text());
        let mut tokens: Vec<Token> = Vec::new();
        while !self.cursor.is_at_end()
            invariant
                self.wf(),
                self.text() == s,
                s == old(self).text(),
                prepend(tokens@, scan(s, self.pos())) == lex(s),
            decreases s.len() - self.pos(),
        {
            let ghost pos = self.pos();
            self.cursor.skip_while(is_whitespace);
            let token_start_offset = self.cursor.offset();
            proof {
                lemma_skip_run(s, pos, token_start_offset as int, space_pred());
            }
            let token_start_char = self.cursor.next_or_end();
            let token_kind = if is_numeric(token_start_char) {
                self.parse_number()
            } else if token_start_char.is_identifier_start() {
                self.parse_identifier(token_start_offset)
            } else if token_start_char == '\"' {
                match self.parse_string() {
                    Ok(k) => k,
                    Err(err) => {
                        proof {
                            assert(scan(s, pos) == Err::<Seq<Token>, Error>(err));
                            assert(lex(s) == Err::<Seq<Token>, Error>(err));
                        }
                        return Err(err);
                    },
                }
            } else {
                self.parse_character(token_start_char)
            };
            proof {
                if token_start_offset < s.len() {
                    lemma_scan_token_advances(s, token_start_offset as int);
                    assert(scan_token(s, token_start_offset as int) == Ok::<(TokenKind, int), Error>((token_kind, self.pos())));
                } else {
                    assert(scan(s, pos) == Ok::<Seq<Token>, Error>(seq![]));
                    assert(self.pos() == s.len());
                }
            }
            if token_kind == TokenKind::NoToken {
                proof {
                    if token_start_offset < s.len() {
                        assert(seq![] + scan(s, self.pos())->Ok_0 == scan(s, self.pos())->Ok_0);
                        assert(tokens@ + seq![] == tokens@);
                    }
                }
                continue;
            }
            let token = Token { kind: token_kind, offset: token_start_offset, end: self.cursor.offset() };
            proof {
                if scan(s, self.pos()) is Ok {
                    assert(tokens@.push(token) + scan(s, self.pos())->Ok_0 == tokens@ + (seq![token] + scan(s, self.pos())->Ok_0));
                }
            }
            tokens.push(token);
        }
        Ok(tokens)
    }

    fn parse_character(&mut self, character: char) -> (r: TokenKind)
        requires
            old(self).wf(),
        ensures
            final(self).wf(),
            final(self).source == old(self).source,
            (r, final(self).pos() == old(self).pos() + 1) == operator_kind(
                character,
                char_at(old(self).text(), old(self).pos()),
            ),
            final(self).pos() == old(self).pos() || final(self).pos() == old(self).pos() + 1,
    {
        if character == '!' && self.cursor.matches('=') {
            TokenKind::BangEqual
        } else if character == '<' && self.cursor.matches('=') {
            TokenKind::LessEqual
        } else if character == '>' && self.cursor.matches('=') {
            TokenKind::GreaterEqual
        } else if character == '=' && self.cursor.matches('=') {
            TokenKind::EqualEqual
        } else {
            character.get_token_kind()
        }
    }

    fn parse_identifier(&mut self, token_start_offset: usize) -> (r: TokenKind)
        requires
            old(self).wf(),
            old(self).pos() == token_start_offset + 1,
        ensures
            final(self).wf(),
            final(self).source == old(self).source,
            final(self).pos() == skip_run(old(self).text(), old(self).pos(), ident_pred()),
            r == (if keyword_kind(old(self).text().subrange(token_start_offset as int, final(self).pos())) == TokenKind::NoToken {
                TokenKind::Identifier
            } else {
                keyword_kind(old(self).text().subrange(token_start_offset as int, final(self).pos()))
            }),
    {
        let ghost s = self.text();
        let ghost pos = self.pos();
        self.cursor.skip_while(continues_identifier);
        proof {
            lemma_skip_run(s, pos, self.pos(), ident_pred());
        }
        let token_value = self.source.substring_char(token_start_offset, self.cursor.offset());
        match token_value.get_token_kind() {
            TokenKind::NoToken => TokenKind::Identifier,
            other => other,
        }
    }

    fn parse_number(&mut self) -> (r: TokenKind)
        requires
            old(self).wf(),
        ensures
            final(self).wf(),
            final(self).source == old(self).source,
            final(self).pos() == number_end(old(self).text(), old(self).pos()),
            r == TokenKind::Number,
    {
        let ghost s = self.text();
        let ghost pos = self.pos();
        self.cursor.skip_while(is_ascii_digit);
        proof {
            lemma_skip_run(s, pos, self.pos(), digit_pred());
        }
        let ghost j = self.pos();
        let first = self.cursor.peek_first();
        let second = self.cursor.peek_second();
        if first == '.' && is_ascii_digit(second) {
            self.cursor.next_or_end();
            let ghost k = self.pos();
            self.cursor.skip_while(is_ascii_digit);
            proof {
                lemma_skip_run(s, k, self.pos(), digit_pred());
            }
        }
        TokenKind::Number
    }

    fn parse_string(&mut self) -> (r: Result<TokenKind, Error>)
        requires
            old(self).wf(),
        ensures
            final(self).wf(),
            final(self).source == old(self).source,
            ({
                let e = skip_run(old(self).text(), old(self).pos(), not_quote_pred());
                if e < old(self).text().len() {
                    r == Ok::<TokenKind, Error>(TokenKind::String) && final(self).pos() == e + 1
                } else {
                    r == Err::<TokenKind, Error>(Error::UnterminatedString)
                }
            }),
    {
        let ghost s = self.text();
        let ghost pos = self.pos();
        self.cursor.skip_while(is_not_quote);
        proof {
            lemma_skip_run(s, pos, self.pos(), not_quote_pred());
        }
        if self.cursor.peek(0) != '"' {
            Err(Error::UnterminatedString)
        } else {
            self.cursor.next_or_end();
            Ok(TokenKind::String)
        }
    }
}

/// Splits a source text into tokens.
pub fn tokenize(source: &str) -> (r: Result<Vec<Token>, Error>)
    ensures
        match r {
            Ok(v) => lex(source@) == Ok::<Seq<Token>, Error>(v@),
            Err(e) => lex(source@) == Err::<Seq<Token>, Error>(e),
        },
{
    let mut lexer = Lexer::new(source);
    lexer.tokenize()
}

/// The characters of a token: the slice of the source that its span covers.
pub fn lexeme<'s>(source: &'s str, token: &Token) -> (r: &'s str)
    requires
        token.offset <= token.end <= source@.len(),
    ensures
        r@ == source@.subrange(token.offset as int, token.end as int),
{
    source.substring_char(token.offset, token.end)
}

/// The spans of `ts` lie inside `s`, at or after `from`, each non-empty, and
/// each ends at or before the next one starts.
pub open spec fn spans_in_order(s: Seq<char>, ts: Seq<Token>, from: int) -> bool {
    &&& forall|i: int|
        0 <= i < ts.len() ==> from <= #[trigger] ts[i].offset && ts[i].offset < ts[i].end
            && ts[i].end <= s.len()
    &&& forall|i: int, j: int| 0 <= i < j < ts.len() ==> #[trigger] ts[i].end <= #[trigger] ts[j].offset
}

proof fn lemma_scan_spans(s: Seq<char>, pos: int)
    requires
        0 <= pos,
        s.len() <= usize::MAX,
        scan(s, pos) is Ok,
    ensures
        spans_in_order(s, scan(s, pos)->Ok_0, pos),
    decreases s.len() - pos,
{
    if pos < s.len() {
        lemma_skip_run_bounds(s, pos, space_pred());
        let start = skip_run(s, pos, space_pred());
        if start < s.len() {
            lemma_scan_token_advances(s, start);
            if let Ok((kind, end)) = scan_token(s, start) {
                if pos < end <= s.len() {
                    lemma_scan_spans(s, end);
                    let rest = scan(s, end)->Ok_0;
                    if kind != TokenKind::NoToken {
                        let t = Token { kind, offset: start as usize, end: end as usize };
                        let ts = seq![t] + rest;
                        assert(ts == scan(s, pos)->Ok_0);
                        assert forall|i: int, j: int| 0 <= i < j < ts.len() implies #[trigger] ts[i].end
                            <= #[trigger] ts[j].offset by {
                            if i > 0 {
                                assert(ts[i] == rest[i - 1]);
                            }
                            assert(ts[j] == rest[j - 1]);
                        }
                        assert forall|i: int| 0 <= i < ts.len() implies pos <= #[trigger] ts[i].offset
                            && ts[i].offset < ts[i].end && ts[i].end <= s.len() by {
                            if i == 0 {
                                assert(ts[0] == t);
                            } else {
                                assert(ts[i] == rest[i - 1]);
                            }
                        }
                    }
                }
            }
        }
    }
}

/// Tokenizing and then slicing the source by each token's span gives back
/// the source's own characters: every span lies inside the source, is not
/// empty, and spans follow one another in order without overlap.
pub proof fn lemma_spans_reproduce_source(s: Seq<char>, ts: Seq<Token>)
    requires
        s.len() <= usize::MAX,
        lex(s) == Ok::<Seq<Token>, Error>(ts),
    ensures
        spans_in_order(s, ts, 0),
        forall|i: int|
            0 <= i < ts.len() ==> #[trigger] s.subrange(ts[i].offset as int, ts[i].end as int).len()
                == ts[i].end - ts[i].offset,
{
    lemma_scan_spans(s, 0);
}

/// A run of digits, optionally followed by a dot and a second digit run, is
/// one Number token over the whole text; a dot with no digit after it is a
/// token of its own.
pub proof fn lemma_number_token(d1: Seq<char>, d2: Seq<char>)
    requires
        d1.len() > 0,
        forall|i: int| 0 <= i < d1.len() ==> is_digit(#[trigger] d1[i]),
        forall|i: int| 0 <= i < d2.len() ==> is_digit(#[trigger] d2[i]),
    ensures
        lex(d1) == Ok::<Seq<Token>, Error>(
            seq![Token { kind: TokenKind::Number, offset: 0, end: d1.len() as usize }],
        ),
        d2.len() > 0 ==> lex(d1 + seq!['.'] + d2) == Ok::<Seq<Token>, Error>(
            seq![Token { kind: TokenKind::Number, offset: 0, end: (d1.len() + 1 + d2.len()) as usize }],
        ),
        d2.len() == 0 ==> lex(d1 + seq!['.']) == Ok::<Seq<Token>, Error>(
            seq![
                Token { kind: TokenKind::Number, offset: 0, end: d1.len() as usize },
                Token { kind: TokenKind::Dot, offset: d1.len() as usize, end: (d1.len() + 1) as usize },
            ],
        ),
{
    let n = d1.len() as int;
    lemma_skip_run(d1, 0, 0, space_pred());
    lemma_skip_run(d1, 1, n, digit_pred());
    assert(scan(d1, n) == Ok::<Seq<Token>, Error>(seq![]));
    assert(seq![Token { kind: TokenKind::Number, offset: 0, end: n as usize }] + seq![] =~= seq![
        Token { kind: TokenKind::Number, offset: 0, end: n as usize },
    ]);
    let s = d1 + seq!['.'] + d2;
    assert(s[0] == d1[0]);
    lemma_skip_run(s, 0, 0, space_pred());
    assert forall|k: int| 1 <= k < n implies #[trigger] digit_pred()(s[k]) by {
        assert(s[k] == d1[k]);
    }
    lemma_skip_run(s, 1, n, digit_pred());
    if d2.len() > 0 {
        assert forall|k: int| n + 1 <= k < s.len() implies #[trigger] digit_pred()(s[k]) by {
            assert(s[k] == d2[k - n - 1]);
        }
        assert(s[n + 1] == d2[0]);
        lemma_skip_run(s, n + 1, s.len() as int, digit_pred());
        assert(scan(s, s.len() as int) == Ok::<Seq<Token>, Error>(seq![]));
        let t = Token { kind: TokenKind::Number, offset: 0, end: s.len() as usize };
        assert(seq![t] + seq![] =~= seq![t]);
    } else {
        assert(s =~= d1 + seq!['.']);
        assert(s.len() == n + 1);
        lemma_skip_run(s, n, n, space_pred());
        assert(scan(s, n + 1) == Ok::<Seq<Token>, Error>(seq![]));
        let t = Token { kind: TokenKind::Dot, offset: n as usize, end: (n + 1) as usize };
        assert(seq![t] + seq![] =~= seq![t]);
        assert(s[n] == '.');
        assert(scan_token(s, n) == Ok::<(TokenKind, int), Error>((TokenKind::Dot, n + 1)));
        assert(scan(s, n) == Ok::<Seq<Token>, Error>(seq![t]));
        assert(number_end(s, 1) == n);
        assert(scan_token(s, 0) == Ok::<(TokenKind, int), Error>((TokenKind::Number, n)));
        let u = Token { kind: TokenKind::Number, offset: 0, end: n as usize };
        assert(seq![u] + seq![t] =~= seq![u, t]);
    }
}

/// A word of letters, digits and underscores that starts with a letter or an
/// underscore is one token: its keyword when it spells one, else an
/// Identifier.
pub proof fn lemma_word_token(w: Seq<char>)
    requires
        0 < w.len(),
        is_ident_start(w[0]),
        forall|i: int| 0 <= i < w.len() ==> is_ident_continue(#[trigger] w[i]),
    ensures
        lex(w) == Ok::<Seq<Token>, Error>(
            seq![
                Token {
                    kind: if keyword_kind(w) == TokenKind::NoToken {
                        TokenKind::Identifier
                    } else {
                        keyword_kind(w)
                    },
                    offset: 0,
                    end: w.len() as usize,
                },
            ],
        ),
{
    lemma_skip_run(w, 0, 0, space_pred());
    assert forall|k: int| 1 <= k < w.len() implies #[trigger] ident_pred()(w[k]) by {}
    lemma_skip_run(w, 1, w.len() as int, ident_pred());
    assert(w.subrange(0, w.len() as int) == w);
    assert(scan(w, w.len() as int) == Ok::<Seq<Token>, Error>(seq![]));
    let k = keyword_kind(w);
    let t = Token {
        kind: if k == TokenKind::NoToken { TokenKind::Identifier } else { k },
        offset: 0,
        end: w.len() as usize,
    };
    assert(seq![t] + seq![] =~= seq![t]);
}

/// A dot after a run of digits that no digit follows is not part of the
/// number: the number ends before the dot, the dot is a token of its own,
/// and the tokens of whatever follows come after the two.
pub proof fn lemma_number_then_dot(d: Seq<char>, rest: Seq<char>)
    requires
        d.len() > 0,
        forall|i: int| 0 <= i < d.len() ==> is_digit(#[trigger] d[i]),
        rest.len() == 0 || !is_digit(rest[0]),
    ensures
        lex(d + seq!['.'] + rest) == prepend(
            seq![
                Token { kind: TokenKind::Number, offset: 0, end: d.len() as usize },
                Token { kind: TokenKind::Dot, offset: d.len() as usize, end: (d.len() + 1) as usize },
            ],
            scan(d + seq!['.'] + rest, d.len() + 1int),
        ),
{
    let n = d.len() as int;
    let s = d + seq!['.'] + rest;
    assert(s[0] == d[0]);
    lemma_skip_run(s, 0, 0, space_pred());
    assert forall|k: int| 1 <= k < n implies #[trigger] digit_pred()(s[k]) by {
        assert(s[k] == d[k]);
    }
    assert(s[n] == '.');
    lemma_skip_run(s, 1, n, digit_pred());
    if rest.len() > 0 {
        assert(s[n + 1] == rest[0]);
    }
    assert(number_end(s, 1) == n);
    assert(scan_token(s, 0) == Ok::<(TokenKind, int), Error>((TokenKind::Number, n)));
    lemma_skip_run(s, n, n, space_pred());
    assert(scan_token(s, n) == Ok::<(TokenKind, int), Error>((TokenKind::Dot, n + 1)));
    let u = Token { kind: TokenKind::Number, offset: 0, end: n as usize };
    let t = Token { kind: TokenKind::Dot, offset: n as usize, end: (n + 1) as usize };
    assert(scan(s, n) == prepend(seq![t], scan(s, n + 1)));
    assert(scan(s, 0) == prepend(seq![u], scan(s, n)));
    if let Ok(x) = scan(s, n + 1) {
        assert(seq![u] + (seq![t] + x) =~= seq![u, t] + x);
    }
}

/// The slice `a..b` of `s`, when `p` holds from `i` up to `j` and fails at
/// `j` (or `j` ends the slice), runs from `i - a` to `j - a`.
proof fn lemma_skip_run_in_slice(s: Seq<char>, a: int, b: int, i: int, j: int, p: spec_fn(char) -> bool)
    requires
        0 <= a <= i <= j <= b <= s.len(),
        forall|k: int| i <= k < j ==> #[trigger] p(s[k]),
        j == b || !p(s[j]),
    ensures
        skip_run(s.subrange(a, b), i - a, p) == j - a,
{
    let t = s.subrange(a, b);
    assert forall|k: int| i - a <= k < j - a implies #[trigger] p(t[k]) by {
        assert(t[k] == s[k + a]);
        assert(p(s[k + a]));
    }
    if j < b {
        assert(t[j - a] == s[j]);
    }
    lemma_skip_run(t, i - a, j - a, p);
}

proof fn lemma_token_alone(s: Seq<char>, a: int)
    requires
        0 <= a < s.len(),
        !is_space(s[a]),
        scan_token(s, a) matches Ok((k, b)) && k != TokenKind::NoToken && a < b <= s.len(),
    ensures
        lex(s.subrange(a, scan_token(s, a)->Ok_0.1)) == Ok::<Seq<Token>, Error>(
            seq![
                Token {
                    kind: scan_token(s, a)->Ok_0.0,
                    offset: 0,
                    end: (scan_token(s, a)->Ok_0.1 - a) as usize,
                },
            ],
        ),
{
    let (k, b) = scan_token(s, a)->Ok_0;
    let t = s.subrange(a, b);
    let n = b - a;
    assert(t[0] == s[a]);
    lemma_skip_run(t, 0, 0, space_pred());
    let c = s[a];
    if starts_number(c) {
        lemma_skip_run_bounds(s, a + 1, digit_pred());
        let j = skip_run(s, a + 1, digit_pred());
        if char_at(s, j) == '.' && is_digit(char_at(s, j + 1)) {
            lemma_skip_run_bounds(s, j + 1, digit_pred());
            lemma_skip_run_in_slice(s, a, b, a + 1, j, digit_pred());
            assert(t[j - a] == s[j]);
            assert(t[j - a + 1] == s[j + 1]);
            lemma_skip_run_in_slice(s, a, b, j + 1, b, digit_pred());
        } else {
            lemma_skip_run_in_slice(s, a, b, a + 1, j, digit_pred());
        }
        assert(number_end(t, 1) == n);
    } else if is_ident_start(c) {
        lemma_skip_run_bounds(s, a + 1, ident_pred());
        lemma_skip_run_in_slice(s, a, b, a + 1, b, ident_pred());
        assert(t.subrange(0, n) =~= s.subrange(a, b));
    } else if c == '"' {
        lemma_skip_run_bounds(s, a + 1, not_quote_pred());
        lemma_skip_run_in_slice(s, a, b, a + 1, b - 1, not_quote_pred());
    } else {
        if b == a + 2 {
            assert(t[1] == s[a + 1]);
        }
    }
    assert(scan_token(t, 0) == Ok::<(TokenKind, int), Error>((k, n)));
    assert(scan(t, n) == Ok::<Seq<Token>, Error>(seq![]));
    let tok = Token { kind: k, offset: 0, end: n as usize };
    assert(seq![tok] + seq![] =~= seq![tok]);
}

/// The tokens of `scan(s, pos)`, each re-tokenized alone from its slice,
/// give back that one token.
pub open spec fn tokens_retokenize(s: Seq<char>, ts: Seq<Token>) -> bool {
    forall|i: int|
        0 <= i < ts.len() ==> lex(s.subrange(ts[i].offset as int, ts[i].end as int)) == Ok::<
            Seq<Token>,
            Error,
        >(seq![Token { kind: #[trigger] ts[i].kind, offset: 0, end: (ts[i].end - ts[i].offset) as usize }])
}

proof fn lemma_scan_retokenizes(s: Seq<char>, pos: int)
    requires
        0 <= pos,
        s.len() <= usize::MAX,
        scan(s, pos) is Ok,
    ensures
        tokens_retokenize(s, scan(s, pos)->Ok_0),
    decreases s.len() - pos,
{
    if pos < s.len() {
        lemma_skip_run_bounds(s, pos, space_pred());
        let start = skip_run(s, pos, space_pred());
        if start < s.len() {
            lemma_scan_token_advances(s, start);
            if let Ok((kind, end)) = scan_token(s, start) {
                if pos < end <= s.len() {
                    lemma_scan_retokenizes(s, end);
                    let rest = scan(s, end)->Ok_0;
                    if kind != TokenKind::NoToken {
                        lemma_token_alone(s, start);
                        let t = Token { kind, offset: start as usize, end: end as usize };
                        let ts = seq![t] + rest;
                        assert(ts == scan(s, pos)->Ok_0);
                        assert forall|i: int| 0 <= i < ts.len() implies lex(
                            s.subrange(ts[i].offset as int, ts[i].end as int),
                        ) == Ok::<Seq<Token>, Error>(
                            seq![Token { kind: #[trigger] ts[i].kind, offset: 0, end: (ts[i].end - ts[i].offset) as usize }],
                        ) by {
                            if i == 0 {
                                assert(ts[0] == t);
                            } else {
                                assert(ts[i] == rest[i - 1]);
                            }
                        }
                    }
                }
            }
        }
    }
}

/// Re-tokenizing the slice that a token spans gives back that token alone,
/// with its span counted from the start of the slice.
pub proof fn lemma_token_slices_retokenize(s: Seq<char>, ts: Seq<Token>)
    requires
        s.len() <= usize::MAX,
        lex(s) == Ok::<Seq<Token>, Error>(ts),
    ensures
        tokens_retokenize(s, ts),
{
    lemma_scan_retokenizes(s, 0);
}

} // verus!
