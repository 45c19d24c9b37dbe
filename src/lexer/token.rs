use vstd::prelude::*;

verus! {

#[derive(Debug, Clone, Copy, PartialEq, Eq, Structural)]
pub enum TokenKind {
    LeftParen,
    RightParen,
    LeftBrace,
    RightBrace,
    LeftBracket,
    RightBracket,
    Comma,
    Dot,
    Minus,
    Plus,
    Slash,
    Star,
    Equal,
    Less,
    Greater,
    Bang,
    Semicolon,
    LessEqual,
    GreaterEqual,
    EqualEqual,
    BangEqual,
    Identifier,
    String,
    Number,
    And,
    Else,
    If,
    Or,
    Var,
    True,
    False,
    Class,
    Fn,
    For,
    While,
    Return,
    Print,
    NoToken,
}

/// A classified token: its kind and the span `offset..end` of its text,
/// counted in characters of the source.
#[derive(Debug, Clone, Copy, PartialEq, Eq, Structural)]
pub struct Token {
    pub kind: TokenKind,
    pub offset: usize,
    pub end: usize,
}

impl Token {
    pub fn from_kind(kind: TokenKind) -> (r: Self)
        ensures
            r == (Token { kind, offset: 0, end: 0 }),
    {
        Self { kind, offset: 0, end: 0 }
    }
}

/// The kind of a single punctuation or operator character.
pub open spec fn punctuation_kind(c: char) -> TokenKind {
    if c == '(' {
        TokenKind::LeftParen
    } else if c == ')' {
        TokenKind::RightParen
    } else if c == '[' {
        TokenKind::LeftBracket
    } else if c == ']' {
        TokenKind::RightBracket
    } else if c == '{' {
        TokenKind::LeftBrace
    } else if c == '}' {
        TokenKind::RightBrace
    } else if c == '.' {
        TokenKind::Dot
    } else if c == ',' {
        TokenKind::Comma
    } else if c == '-' {
        TokenKind::Minus
    } else if c == '+' {
        TokenKind::Plus
    } else if c == '=' {
        TokenKind::Equal
    } else if c == '<' {
        TokenKind::Less
    } else if c == '>' {
        TokenKind::Greater
    } else if c == '*' {
        TokenKind::Star
    } else if c == '/' {
        TokenKind::Slash
    } else if c == '!' {
        TokenKind::Bang
    } else if c == ';' {
        TokenKind::Semicolon
    } else {
        TokenKind::NoToken
    }
}

/// The keyword that a word spells, or `None` for any other word.
pub open spec fn keyword_kind(w: Seq<char>) -> TokenKind {
    if w == seq!['e', 'l', 's', 'e'] {
        TokenKind::Else
    } else if w == seq!['a', 'n', 'd'] {
        TokenKind::And
    } else if w == seq!['v', 'a', 'r'] {
        TokenKind::Var
    } else if w == seq!['i', 'f'] {
        TokenKind::If
    } else if w == seq!['o', 'r'] {
        TokenKind::Or
    } else if w == seq!['t', 'r', 'u', 'e'] {
        TokenKind::True
    } else if w == seq!['f', 'a', 'l', 's', 'e'] {
        TokenKind::False
    } else if w == seq!['c', 'l', 'a', 's', 's'] {
        TokenKind::Class
    } else if w == seq!['f', 'n'] {
        TokenKind::Fn
    } else if w == seq!['f', 'o', 'r'] {
        TokenKind::For
    } else if w == seq!['w', 'h', 'i', 'l', 'e'] {
        TokenKind::While
    } else if w == seq!['r', 'e', 't', 'u', 'r', 'n'] {
        TokenKind::Return
    } else if w == seq!['p', 'r', 'i', 'n', 't'] {
        TokenKind::Print
    } else {
        TokenKind::NoToken
    }
}

pub open spec fn is_digit(c: char) -> bool {
    '0' <= c <= '9'
}

pub open spec fn is_letter(c: char) -> bool {
    ('a' <= c <= 'z') || ('A' <= c <= 'Z')
}

pub open spec fn is_ident_start(c: char) -> bool {
    is_letter(c) || c == '_'
}

pub open spec fn is_ident_continue(c: char) -> bool {
    is_ident_start(c) || is_digit(c)
}

/// Maps a piece of text to the token kind that it spells.
pub trait TokenRepresentation {
    spec fn spelled_kind(&self) -> TokenKind;

    fn get_token_kind(&self) -> (r: TokenKind)
        ensures
            r == self.spelled_kind(),
    ;
}

/// Classifies characters of identifiers.
pub trait Identifier {
    spec fn starts_identifier(&self) -> bool;

    spec fn continues_identifier(&self) -> bool;

    fn is_identifier_start(&self) -> (r: bool)
        ensures
            r == self.starts_identifier(),
    ;

    fn is_identifier_continue(&self) -> (r: bool)
        ensures
            r == self.continues_identifier(),
    ;
}

impl TokenRepresentation for char {
    open spec fn spelled_kind(&self) -> TokenKind {
        punctuation_kind(*self)
    }

    fn get_token_kind(&self) -> (r: TokenKind) {
        match *self {
            '(' => TokenKind::LeftParen,
            ')' => TokenKind::RightParen,
            '[' => TokenKind::LeftBracket,
            ']' => TokenKind::RightBracket,
            '{' => TokenKind::LeftBrace,
            '}' => TokenKind::RightBrace,
            '.' => TokenKind::Dot,
            ',' => TokenKind::Comma,
            '-' => TokenKind::Minus,
            '+' => TokenKind::Plus,
            '=' => TokenKind::Equal,
            '<' => TokenKind::Less,
            '>' => TokenKind::Greater,
            '*' => TokenKind::Star,
            '/' => TokenKind::Slash,
            '!' => TokenKind::Bang,
            ';' => TokenKind::Semicolon,
            _ => TokenKind::NoToken,
        }
    }
}

/// Whether `s` spells exactly the word `w`.
pub fn spells(s: &str, w: &str) -> (r: bool)
    ensures
        r == (s@ == w@),
{
    let n = s.unicode_len();
    if n != w.unicode_len() {
        return false;
    }
    let mut i: usize = 0;
    while i < n
        invariant
            n == s@.len(),
            n == w@.len(),
            i <= n,
            s@.subrange(0, i as int) == w@.subrange(0, i as int),
        decreases n - i,
    {
        if s.get_char(i) != w.get_char(i) {
            assert(s@[i as int] != w@[i as int]);
            return false;
        }
        assert(s@.subrange(0, i + 1) == s@.subrange(0, i as int).push(s@[i as int]));
        assert(w@.subrange(0, i + 1) == w@.subrange(0, i as int).push(w@[i as int]));
        i += 1;
    }
    assert(s@ == s@.subrange(0, n as int));
    assert(w@ == w@.subrange(0, n as int));
    true
}

impl TokenRepresentation for str {
    open spec fn spelled_kind(&self) -> TokenKind {
        keyword_kind(self@)
    }

    fn get_token_kind(&self) -> (r: TokenKind) {
        proof {
            reveal_strlit("else");
            assert("else"@ =~= seq!['e', 'l', 's', 'e']);
            reveal_strlit("and");
            assert("and"@ =~= seq!['a', 'n', 'd']);
            reveal_strlit("var");
            assert("var"@ =~= seq!['v', 'a', 'r']);
            reveal_strlit("if");
            assert("if"@ =~= seq!['i', 'f']);
            reveal_strlit("or");
            assert("or"@ =~= seq!['o', 'r']);
            reveal_strlit("true");
            assert("true"@ =~= seq!['t', 'r', 'u', 'e']);
            reveal_strlit("false");
            assert("false"@ =~= seq!['f', 'a', 'l', 's', 'e']);
            reveal_strlit("class");
            assert("class"@ =~= seq!['c', 'l', 'a', 's', 's']);
            reveal_strlit("fn");
            assert("fn"@ =~= seq!['f', 'n']);
            reveal_strlit("for");
            assert("for"@ =~= seq!['f', 'o', 'r']);
            reveal_strlit("while");
            assert("while"@ =~= seq!['w', 'h', 'i', 'l', 'e']);
            reveal_strlit("return");
            assert("return"@ =~= seq!['r', 'e', 't', 'u', 'r', 'n']);
            reveal_strlit("print");
            assert("print"@ =~= seq!['p', 'r', 'i', 'n', 't']);
        }
        if spells(self, "else") {
            TokenKind::Else
        } else if spells(self, "and") {
            TokenKind::And
        } else if spells(self, "var") {
            TokenKind::Var
        } else if spells(self, "if") {
            TokenKind::If
        } else if spells(self, "or") {
            TokenKind::Or
        } else if spells(self, "true") {
            TokenKind::True
        } else if spells(self, "false") {
            TokenKind::False
        } else if spells(self, "class") {
            TokenKind::Class
        } else if spells(self, "fn") {
            TokenKind::Fn
        } else if spells(self, "for") {
            TokenKind::For
        } else if spells(self, "while") {
            TokenKind::While
        } else if spells(self, "return") {
            TokenKind::Return
        } else if spells(self, "print") {
            TokenKind::Print
        } else {
            TokenKind::NoToken
        }
    }
}

impl Identifier for char {
    open spec fn starts_identifier(&self) -> bool {
        is_ident_start(*self)
    }

    open spec fn continues_identifier(&self) -> bool {
        is_ident_continue(*self)
    }

    fn is_identifier_start(&self) -> (r: bool) {
        let c = *self;
        ('a' <= c && c <= 'z') || ('A' <= c && c <= 'Z') || c == '_'
    }

    fn is_identifier_continue(&self) -> (r: bool) {
        let c = *self;
        self.is_identifier_start() || ('0' <= c && c <= '9')
    }
}

} // verus!
