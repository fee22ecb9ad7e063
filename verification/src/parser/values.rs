//! Reading a value: one token, or a group between braces.
use vstd::prelude::*;
use crate::error::{Error, Expected};
use crate::token::{Token, TokenKind};
use super::utils::{agrees, parse_set_ish_value, spec_parse_set_ish_value};

verus! {

/// The keywords that are values by themselves.
pub open spec fn is_value_keyword(t: Seq<char>) -> bool {
    ||| t == "TRUE"@
    ||| t == "FALSE"@
    ||| t == "NULL"@
    ||| t == "MIN"@
    ||| t == "MAX"@
    ||| t == "PLUS-INFINITY"@
    ||| t == "MINUS-INFINITY"@
}

/// A token that is a whole value: a reference, a number, a string, or one of
/// the keywords that are values.
pub open spec fn is_single_token_value(t: Token) -> bool {
    ||| t.kind == TokenKind::Identifier
    ||| t.kind == TokenKind::Number
    ||| t.kind == TokenKind::TString
    ||| t.kind == TokenKind::BitString
    ||| t.kind == TokenKind::HexString
    ||| (t.kind == TokenKind::Keyword && is_value_keyword(t.text@))
}

fn single_token_value(t: &Token) -> (b: bool)
    ensures
        b == is_single_token_value(*t),
{
    match t.kind {
        TokenKind::Identifier | TokenKind::Number | TokenKind::TString | TokenKind::BitString
        | TokenKind::HexString => true,
        TokenKind::Keyword => {
            let s = t.text.as_str();
            crate::token::text_is(s, "TRUE") || crate::token::text_is(s, "FALSE")
                || crate::token::text_is(s, "NULL") || crate::token::text_is(s, "MIN")
                || crate::token::text_is(s, "MAX") || crate::token::text_is(s, "PLUS-INFINITY")
                || crate::token::text_is(s, "MINUS-INFINITY")
        },
        _ => false,
    }
}

/// The value read at the start of `toks` and the number of its tokens.
pub open spec fn spec_parse_value(toks: Seq<Token>) -> Result<(Seq<char>, nat), Error> {
    if toks.len() == 0 {
        Err(Error::UnexpectedEndOfTokens)
    } else if toks[0].spec_is_curly_begin() {
        spec_parse_set_ish_value(toks)
    } else if is_single_token_value(toks[0]) {
        Ok((toks[0].text@, 1))
    } else {
        Err(Error::UnexpectedToken { expected: Expected::Value, found: toks[0] })
    }
}

/// The BOOLEAN values `TRUE` and `FALSE`, and `NULL`, are whole values: a
/// value read from tokens that start with one of these keywords is that
/// keyword's text, and takes one token, whatever follows.
pub proof fn law_keyword_values(toks: Seq<Token>)
    requires
        toks.len() > 0,
        toks[0].kind == TokenKind::Keyword,
        toks[0].text@ == "TRUE"@ || toks[0].text@ == "FALSE"@ || toks[0].text@ == "NULL"@,
    ensures
        spec_parse_value(toks) == Ok::<(Seq<char>, nat), Error>((toks[0].text@, 1nat)),
{
}

/// Reads the value at the start of `tokens`: its text and its count of tokens.
pub fn parse_value(tokens: &[Token]) -> (r: Result<(String, usize), Error>)
    ensures
        agrees(r, spec_parse_value(tokens@)),
        r matches Ok((_, n)) ==> 0 < n <= tokens@.len(),
{
    if tokens.len() == 0 {
        Err(Error::UnexpectedEndOfTokens)
    } else if tokens[0].is_curly_begin() {
        parse_set_ish_value(tokens)
    } else if single_token_value(&tokens[0]) {
        Ok((tokens[0].text.clone(), 1))
    } else {
        Err(Error::UnexpectedToken { expected: Expected::Value, found: tokens[0].clone() })
    }
}

} // verus!
