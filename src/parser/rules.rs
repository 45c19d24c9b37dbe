use vstd::prelude::*;

use crate::lexer::token::TokenKind;

verus! {

pub open spec fn equality_kind(kind: TokenKind) -> bool {
    kind == TokenKind::BangEqual || kind == TokenKind::EqualEqual
}

pub open spec fn comparison_kind(kind: TokenKind) -> bool {
    kind == TokenKind::Greater || kind == TokenKind::GreaterEqual || kind == TokenKind::Less
        || kind == TokenKind::LessEqual
}

pub open spec fn term_kind(kind: TokenKind) -> bool {
    kind == TokenKind::Minus || kind == TokenKind::Plus
}

pub open spec fn factor_kind(kind: TokenKind) -> bool {
    kind == TokenKind::Slash || kind == TokenKind::Star
}

pub open spec fn unary_kind(kind: TokenKind) -> bool {
    kind == TokenKind::Bang || kind == TokenKind::Minus
}

pub open spec fn primary_kind(kind: TokenKind) -> bool {
    kind == TokenKind::True || kind == TokenKind::False || kind == TokenKind::String
        || kind == TokenKind::Number
}

pub fn is_equality_token(kind: TokenKind) -> (r: bool)
    ensures
        r == equality_kind(kind),
{
    matches!(kind, TokenKind::BangEqual | TokenKind::EqualEqual)
}

pub fn is_comparison_token(kind: TokenKind) -> (r: bool)
    ensures
        r == comparison_kind(kind),
{
    matches!(
        kind,
        TokenKind::Greater | TokenKind::GreaterEqual | TokenKind::Less | TokenKind::LessEqual
    )
}

pub fn is_term_token(kind: TokenKind) -> (r: bool)
    ensures
        r == term_kind(kind),
{
    matches!(kind, TokenKind::Minus | TokenKind::Plus)
}

pub fn is_factor_token(kind: TokenKind) -> (r: bool)
    ensures
        r == factor_kind(kind),
{
    matches!(kind, TokenKind::Slash | TokenKind::Star)
}

pub fn is_unary_token(kind: TokenKind) -> (r: bool)
    ensures
        r == unary_kind(kind),
{
    matches!(kind, TokenKind::Bang | TokenKind::Minus)
}

pub fn is_primary_token(kind: TokenKind) -> (r: bool)
    ensures
        r == primary_kind(kind),
{
    matches!(kind, TokenKind::True | TokenKind::False | TokenKind::String | TokenKind::Number)
}

} // verus!
