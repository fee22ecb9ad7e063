//! Reading an information object class: `CLASS { fields }`, with an optional
//! `WITH SYNTAX { words }`.
use vstd::prelude::*;
use crate::error::{Error, Expected};
use crate::token::Token;
use crate::structs::{Asn1ObjectClass, ObjectClassView};
use super::utils::{agrees, texts, token_texts};
use super::types::{braced, braced_end};

verus! {

/// The class read at the start of `toks` and the number of its tokens.
pub open spec fn spec_parse_class(toks: Seq<Token>) -> Result<(ObjectClassView, nat), Error> {
    if toks.len() == 0 {
        Err(Error::UnexpectedEndOfTokens)
    } else if !toks[0].spec_is_given_keyword("CLASS") {
        Err(Error::UnexpectedToken { expected: Expected::ClassKeyword, found: toks[0] })
    } else {
        match braced(toks, 1) {
            Err(e) => Err(e),
            Ok(e) => {
                let fields = texts(toks.subrange(1, e as int));
                if e + 1 < toks.len() && toks[e as int].spec_is_given_keyword("WITH") && toks[e
                    + 1int].spec_is_given_keyword("SYNTAX") {
                    match braced(toks, e + 2) {
                        Err(x) => Err(x),
                        Ok(f) => Ok(
                            (
                                ObjectClassView {
                                    fields,
                                    syntax: Some(texts(toks.subrange(e + 2int, f as int))),
                                },
                                f,
                            ),
                        ),
                    }
                } else {
                    Ok((ObjectClassView { fields, syntax: None }, e))
                }
            },
        }
    }
}

/// Reads the class at the start of `tokens`, from its keyword `CLASS` on.
pub fn parse_class(tokens: &[Token]) -> (r: Result<(Asn1ObjectClass, usize), Error>)
    ensures
        agrees(r, spec_parse_class(tokens@)),
        r matches Ok((_, n)) ==> 0 < n <= tokens@.len(),
{
    if tokens.len() == 0 {
        return Err(Error::UnexpectedEndOfTokens);
    }
    if !tokens[0].is_given_keyword("CLASS") {
        return Err(Error::UnexpectedToken { expected: Expected::ClassKeyword, found: tokens[0].clone() });
    }
    let e = braced_end(tokens, 1)?;
    let fields = token_texts(tokens, 1, e);
    if e < tokens.len() && e + 1 < tokens.len() && tokens[e].is_given_keyword("WITH") && tokens[e + 1].is_given_keyword(
        "SYNTAX",
    ) {
        let f = braced_end(tokens, e + 2)?;
        let syntax = token_texts(tokens, e + 2, f);
        Ok((Asn1ObjectClass { fields, syntax: Some(syntax) }, f))
    } else {
        Ok((Asn1ObjectClass { fields, syntax: None }, e))
    }
}

} // verus!
