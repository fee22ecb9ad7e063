//! Reading where a type ends: the built-in types with their bodies between
//! braces, `SEQUENCE OF` / `SET OF`, references to types and to fields of
//! classes, each followed by any number of constraints between parentheses.
use vstd::prelude::*;
use vstd::slice::slice_subrange;
use crate::error::{Error, Expected};
use crate::token::Token;
use crate::structs::Asn1Type;
use super::utils::{agrees, find_group_end, group_end, lemma_group_end_bounds, texts, token_texts, TokenClass};

verus! {

/// Whether an exact position and a specified one agree: the same position, or
/// the same error.
pub open spec fn agrees_pos(r: Result<usize, Error>, s: Result<nat, Error>) -> bool {
    match (r, s) {
        (Ok(n), Ok(m)) => n as nat == m,
        (Err(e), Err(f)) => e == f,
        _ => false,
    }
}

/// Past a group between braces that opens at `at`.
pub open spec fn braced(toks: Seq<Token>, at: nat) -> Result<nat, Error> {
    if at >= toks.len() {
        Err(Error::UnexpectedEndOfTokens)
    } else if !toks[at as int].spec_is_curly_begin() {
        Err(Error::UnexpectedToken { expected: Expected::CurlyBegin, found: toks[at as int] })
    } else {
        match group_end(toks, at + 1int, TokenClass::CurlyBegin, TokenClass::CurlyEnd, 1) {
            None => Err(Error::UnexpectedEndOfTokens),
            Some(e) => Ok(e),
        }
    }
}

/// Past a group between braces where one opens at `at`; else `at`.
pub open spec fn opt_braced(toks: Seq<Token>, at: nat) -> Result<nat, Error> {
    if at < toks.len() && toks[at as int].spec_is_curly_begin() {
        braced(toks, at)
    } else {
        Ok(at)
    }
}

/// Past the keyword `kw`, which must stand at `at`.
pub open spec fn keyword_at(toks: Seq<Token>, at: nat, kw: &str) -> Result<nat, Error> {
    if at >= toks.len() {
        Err(Error::UnexpectedEndOfTokens)
    } else if !toks[at as int].spec_is_given_keyword(kw) {
        Err(Error::UnexpectedToken { expected: Expected::Keyword, found: toks[at as int] })
    } else {
        Ok(at + 1)
    }
}

/// Past every constraint between parentheses that follows from `pos` on.
pub open spec fn constraints_end(toks: Seq<Token>, pos: nat) -> Result<nat, Error>
    decreases toks.len() - pos,
{
    if pos < toks.len() && toks[pos as int].spec_is_round_begin() {
        match group_end(toks, pos + 1int, TokenClass::RoundBegin, TokenClass::RoundEnd, 1) {
            None => Err(Error::UnexpectedEndOfTokens),
            Some(e) => {
                proof {
                    lemma_group_end_bounds(
                        toks,
                        pos + 1int,
                        TokenClass::RoundBegin,
                        TokenClass::RoundEnd,
                        1,
                    );
                }
                constraints_end(toks, e)
            },
        }
    } else {
        Ok(pos)
    }
}

pub proof fn lemma_constraints_end_bounds(toks: Seq<Token>, pos: nat)
    requires
        pos <= toks.len(),
    ensures
        constraints_end(toks, pos) matches Ok(e) ==> pos <= e <= toks.len(),
    decreases toks.len() - pos,
{
    if pos < toks.len() && toks[pos as int].spec_is_round_begin() {
        lemma_group_end_bounds(toks, pos + 1int, TokenClass::RoundBegin, TokenClass::RoundEnd, 1);
        if let Some(e) = group_end(
            toks,
            pos + 1int,
            TokenClass::RoundBegin,
            TokenClass::RoundEnd,
            1,
        ) {
            lemma_constraints_end_bounds(toks, e);
        }
    }
}

/// Past a reference to a type or to a field of a class (`Ref.&field...`),
/// with its actual parameters between braces where it has them.
pub open spec fn reference_end(toks: Seq<Token>, pos: nat) -> Result<nat, Error>
    decreases toks.len() - pos,
{
    if pos + 1 < toks.len() && toks[pos as int].spec_is_dot() && toks[pos + 1int].spec_is_and_identifier() {
        reference_end(toks, pos + 2)
    } else {
        opt_braced(toks, pos)
    }
}

/// Where the first part of a type ends. `Ok((false, n))`: the type is done
/// after `n` tokens but for its constraints; `Ok((true, n))`: a type of the
/// elements of a `SEQUENCE OF` or `SET OF` starts after `n` tokens.
pub open spec fn type_head(toks: Seq<Token>) -> Result<(bool, nat), Error> {
    if toks.len() == 0 {
        Err(Error::UnexpectedEndOfTokens)
    } else {
        let t = toks[0];
        if t.spec_is_given_keyword("SEQUENCE") || t.spec_is_given_keyword("SET") {
            if toks.len() < 2 {
                Err(Error::UnexpectedEndOfTokens)
            } else if toks[1].spec_is_curly_begin() {
                match braced(toks, 1) {
                    Ok(e) => Ok((false, e)),
                    Err(e) => Err(e),
                }
            } else {
                let p: nat = if toks[1].spec_is_given_keyword("SIZE") {
                    2
                } else {
                    1
                };
                match constraints_end(toks, p) {
                    Err(e) => Err(e),
                    Ok(q) => match keyword_at(toks, q, "OF") {
                        Err(e) => Err(e),
                        Ok(r) => Ok((true, r)),
                    },
                }
            }
        } else if t.spec_is_given_keyword("CHOICE") || t.spec_is_given_keyword("ENUMERATED") {
            match braced(toks, 1) {
                Ok(e) => Ok((false, e)),
                Err(e) => Err(e),
            }
        } else if t.spec_is_given_keyword("INTEGER") {
            match opt_braced(toks, 1) {
                Ok(e) => Ok((false, e)),
                Err(e) => Err(e),
            }
        } else if t.spec_is_given_keyword("BIT") {
            match keyword_at(toks, 1, "STRING") {
                Err(e) => Err(e),
                Ok(q) => match opt_braced(toks, q) {
                    Ok(e) => Ok((false, e)),
                    Err(e) => Err(e),
                },
            }
        } else if t.spec_is_given_keyword("OCTET") || t.spec_is_given_keyword("CHARACTER") {
            match keyword_at(toks, 1, "STRING") {
                Ok(e) => Ok((false, e)),
                Err(e) => Err(e),
            }
        } else if t.spec_is_given_keyword("OBJECT") {
            match keyword_at(toks, 1, "IDENTIFIER") {
                Ok(e) => Ok((false, e)),
                Err(e) => Err(e),
            }
        } else if t.spec_is_given_keyword("EMBEDDED") {
            match keyword_at(toks, 1, "PDV") {
                Ok(e) => Ok((false, e)),
                Err(e) => Err(e),
            }
        } else if t.spec_is_asn_builtin_type() {
            Ok((false, 1))
        } else if t.spec_is_type_reference() {
            match reference_end(toks, 1) {
                Ok(e) => Ok((false, e)),
                Err(e) => Err(e),
            }
        } else {
            Err(Error::UnexpectedToken { expected: Expected::Type, found: t })
        }
    }
}

pub proof fn lemma_type_head_bounds(toks: Seq<Token>)
    ensures
        type_head(toks) matches Ok((_, e)) ==> 0 < e <= toks.len(),
{
    if toks.len() >= 2 {
        lemma_group_end_bounds(toks, 2, TokenClass::CurlyBegin, TokenClass::CurlyEnd, 1);
        lemma_constraints_end_bounds(toks, 1);
        lemma_constraints_end_bounds(toks, 2);
        lemma_reference_end_bounds(toks, 1);
        if let Ok(q) = keyword_at(toks, 1, "STRING") {
            lemma_group_end_bounds(toks, q + 1int, TokenClass::CurlyBegin, TokenClass::CurlyEnd, 1);
        }
    }
    if toks.len() >= 1 {
        lemma_reference_end_bounds(toks, 1);
    }
}

pub proof fn lemma_reference_end_bounds(toks: Seq<Token>, pos: nat)
    requires
        pos <= toks.len(),
    ensures
        reference_end(toks, pos) matches Ok(e) ==> pos <= e <= toks.len(),
    decreases toks.len() - pos,
{
    if pos + 1 < toks.len() && toks[pos as int].spec_is_dot() && toks[pos + 1int].spec_is_and_identifier() {
        lemma_reference_end_bounds(toks, pos + 2);
    } else {
        lemma_group_end_bounds(toks, pos + 1int, TokenClass::CurlyBegin, TokenClass::CurlyEnd, 1);
    }
}

/// How many tokens the type at the start of `toks` takes.
pub open spec fn spec_type_len(toks: Seq<Token>) -> Result<nat, Error>
    decreases toks.len(),
{
    match type_head(toks) {
        Err(e) => Err(e),
        Ok((false, h)) => constraints_end(toks, h),
        Ok((true, r)) => {
            proof {
                lemma_type_head_bounds(toks);
            }
            match spec_type_len(toks.skip(r as int)) {
                Err(e) => Err(e),
                Ok(m) => Ok(r + m),
            }
        },
    }
}

pub proof fn lemma_type_len_bounds(toks: Seq<Token>)
    ensures
        spec_type_len(toks) matches Ok(n) ==> 0 < n <= toks.len(),
    decreases toks.len(),
{
    lemma_type_head_bounds(toks);
    match type_head(toks) {
        Err(e) => {},
        Ok((false, h)) => {
            lemma_constraints_end_bounds(toks, h);
        },
        Ok((true, r)) => {
            lemma_type_len_bounds(toks.skip(r as int));
        },
    }
}

/// `BIT STRING` is a whole type without a list of named bits: where no brace
/// follows it, the type is `BIT STRING` and the constraint groups between
/// parentheses that follow it, and nothing more.
pub proof fn law_bit_string_without_named_bits(toks: Seq<Token>)
    requires
        toks.len() >= 2,
        toks[0].spec_is_given_keyword("BIT"),
        toks[1].spec_is_given_keyword("STRING"),
    ensures
        toks.len() == 2 || !(toks[2].spec_is_curly_begin() || toks[2].spec_is_round_begin())
            ==> spec_type_len(toks) == Ok::<nat, Error>(2nat),
        toks.len() > 2 && toks[2].spec_is_round_begin() ==> match group_end(
            toks,
            3,
            TokenClass::RoundBegin,
            TokenClass::RoundEnd,
            1,
        ) {
            Some(e) => (e == toks.len() || !toks[e as int].spec_is_round_begin())
                ==> spec_type_len(toks) == Ok::<nat, Error>(e),
            None => spec_type_len(toks) == Err::<nat, Error>(Error::UnexpectedEndOfTokens),
        },
{
    reveal_strlit("BIT");
    reveal_strlit("SEQUENCE");
    reveal_strlit("SET");
    reveal_strlit("CHOICE");
    reveal_strlit("ENUMERATED");
    reveal_strlit("INTEGER");
    assert("BIT"@[0] != "SEQUENCE"@[0]);
    assert("BIT"@[0] != "SET"@[0]);
    assert(!toks[0].spec_is_given_keyword("SEQUENCE"));
    assert(!toks[0].spec_is_given_keyword("SET"));
    assert(!toks[0].spec_is_given_keyword("CHOICE"));
    assert(!toks[0].spec_is_given_keyword("ENUMERATED"));
    assert(!toks[0].spec_is_given_keyword("INTEGER"));
    if toks.len() > 2 && toks[2].spec_is_round_begin() {
        lemma_group_end_bounds(toks, 3, TokenClass::RoundBegin, TokenClass::RoundEnd, 1);
        if let Some(e) = group_end(toks, 3, TokenClass::RoundBegin, TokenClass::RoundEnd, 1) {
            if e == toks.len() || !toks[e as int].spec_is_round_begin() {
                assert(constraints_end(toks, e) == Ok::<nat, Error>(e));
            }
        }
    }
}

/// `INTEGER` and `OCTET STRING` are whole types by themselves: where neither
/// a brace nor a parenthesis follows them, the type ends there.
pub proof fn law_plain_integer_and_octet_string(toks: Seq<Token>)
    ensures
        toks.len() >= 1 && toks[0].spec_is_given_keyword("INTEGER") && (toks.len() == 1 || !(
        toks[1].spec_is_curly_begin() || toks[1].spec_is_round_begin()))
            ==> spec_type_len(toks) == Ok::<nat, Error>(1nat),
        toks.len() >= 2 && toks[0].spec_is_given_keyword("OCTET") && toks[1].spec_is_given_keyword(
            "STRING",
        ) && (toks.len() == 2 || !toks[2].spec_is_round_begin()) ==> spec_type_len(toks) == Ok::<
            nat,
            Error,
        >(2nat),
{
    reveal_strlit("OCTET");
    reveal_strlit("SEQUENCE");
    reveal_strlit("SET");
    reveal_strlit("CHOICE");
    reveal_strlit("ENUMERATED");
    reveal_strlit("INTEGER");
    reveal_strlit("BIT");
    assert("INTEGER"@[0] != "SEQUENCE"@[0] && "INTEGER"@[0] != "SET"@[0]);
    assert("INTEGER"@[0] != "CHOICE"@[0] && "INTEGER"@[0] != "ENUMERATED"@[0]);
    assert("OCTET"@[0] != "SEQUENCE"@[0] && "OCTET"@[0] != "SET"@[0]);
    assert("OCTET"@[0] != "CHOICE"@[0] && "OCTET"@[0] != "ENUMERATED"@[0]);
    assert("OCTET"@[0] != "INTEGER"@[0] && "OCTET"@[0] != "BIT"@[0]);
}

/// The type read at the start of `toks` and the number of its tokens.
pub open spec fn spec_parse_type(toks: Seq<Token>) -> Result<(Seq<Seq<char>>, nat), Error> {
    match spec_type_len(toks) {
        Err(e) => Err(e),
        Ok(n) => Ok((texts(toks.take(n as int)), n)),
    }
}

pub fn braced_end(tokens: &[Token], at: usize) -> (r: Result<usize, Error>)
    requires
        at <= tokens@.len(),
    ensures
        agrees_pos(r, braced(tokens@, at as nat)),
        r matches Ok(e) ==> at < e <= tokens@.len(),
{
    if at >= tokens.len() {
        return Err(Error::UnexpectedEndOfTokens);
    }
    if !tokens[at].is_curly_begin() {
        return Err(Error::UnexpectedToken { expected: Expected::CurlyBegin, found: tokens[at].clone() });
    }
    match find_group_end(tokens, at + 1, TokenClass::CurlyBegin, TokenClass::CurlyEnd) {
        None => Err(Error::UnexpectedEndOfTokens),
        Some(e) => Ok(e),
    }
}

pub fn opt_braced_end(tokens: &[Token], at: usize) -> (r: Result<usize, Error>)
    requires
        at <= tokens@.len(),
    ensures
        agrees_pos(r, opt_braced(tokens@, at as nat)),
        r matches Ok(e) ==> at <= e <= tokens@.len(),
{
    if at < tokens.len() && tokens[at].is_curly_begin() {
        braced_end(tokens, at)
    } else {
        Ok(at)
    }
}

pub fn keyword_end(tokens: &[Token], at: usize, kw: &str) -> (r: Result<usize, Error>)
    requires
        at <= tokens@.len(),
    ensures
        agrees_pos(r, keyword_at(tokens@, at as nat, kw)),
        r matches Ok(e) ==> e == at + 1 && e <= tokens@.len(),
{
    if at >= tokens.len() {
        return Err(Error::UnexpectedEndOfTokens);
    }
    if !tokens[at].is_given_keyword(kw) {
        return Err(Error::UnexpectedToken { expected: Expected::Keyword, found: tokens[at].clone() });
    }
    Ok(at + 1)
}

pub fn skip_constraints(tokens: &[Token], pos: usize) -> (r: Result<usize, Error>)
    requires
        pos <= tokens@.len(),
    ensures
        agrees_pos(r, constraints_end(tokens@, pos as nat)),
        r matches Ok(e) ==> pos <= e <= tokens@.len(),
{
    let mut p = pos;
    while p < tokens.len() && tokens[p].is_round_begin()
        invariant
            pos <= p <= tokens@.len(),
            constraints_end(tokens@, p as nat) == constraints_end(tokens@, pos as nat),
        decreases tokens@.len() - p,
    {
        match find_group_end(tokens, p + 1, TokenClass::RoundBegin, TokenClass::RoundEnd) {
            None => {
                return Err(Error::UnexpectedEndOfTokens);
            },
            Some(e) => {
                p = e;
            },
        }
    }
    Ok(p)
}

pub fn skip_reference(tokens: &[Token], pos: usize) -> (r: Result<usize, Error>)
    requires
        pos <= tokens@.len(),
    ensures
        agrees_pos(r, reference_end(tokens@, pos as nat)),
        r matches Ok(e) ==> pos <= e <= tokens@.len(),
{
    let mut p = pos;
    while p < tokens.len() && p + 1 < tokens.len() && tokens[p].is_dot() && tokens[p + 1].is_and_identifier()
        invariant
            pos <= p <= tokens@.len(),
            reference_end(tokens@, p as nat) == reference_end(tokens@, pos as nat),
        decreases tokens@.len() - p,
    {
        p = p + 2;
    }
    opt_braced_end(tokens, p)
}

pub fn head_of_type(tokens: &[Token]) -> (r: Result<(bool, usize), Error>)
    ensures
        agrees(r, type_head(tokens@)),
{
    if tokens.len() == 0 {
        return Err(Error::UnexpectedEndOfTokens);
    }
    let t = &tokens[0];
    if t.is_given_keyword("SEQUENCE") || t.is_given_keyword("SET") {
        if tokens.len() < 2 {
            Err(Error::UnexpectedEndOfTokens)
        } else if tokens[1].is_curly_begin() {
            let e = braced_end(tokens, 1)?;
            Ok((false, e))
        } else {
            let p: usize = if tokens[1].is_given_keyword("SIZE") {
                2
            } else {
                1
            };
            let q = skip_constraints(tokens, p)?;
            let r = keyword_end(tokens, q, "OF")?;
            Ok((true, r))
        }
    } else if t.is_given_keyword("CHOICE") || t.is_given_keyword("ENUMERATED") {
        let e = braced_end(tokens, 1)?;
        Ok((false, e))
    } else if t.is_given_keyword("INTEGER") {
        let e = opt_braced_end(tokens, 1)?;
        Ok((false, e))
    } else if t.is_given_keyword("BIT") {
        let q = keyword_end(tokens, 1, "STRING")?;
        let e = opt_braced_end(tokens, q)?;
        Ok((false, e))
    } else if t.is_given_keyword("OCTET") || t.is_given_keyword("CHARACTER") {
        let e = keyword_end(tokens, 1, "STRING")?;
        Ok((false, e))
    } else if t.is_given_keyword("OBJECT") {
        let e = keyword_end(tokens, 1, "IDENTIFIER")?;
        Ok((false, e))
    } else if t.is_given_keyword("EMBEDDED") {
        let e = keyword_end(tokens, 1, "PDV")?;
        Ok((false, e))
    } else if t.is_asn_builtin_type() {
        Ok((false, 1))
    } else if t.is_type_reference() {
        let e = skip_reference(tokens, 1)?;
        Ok((false, e))
    } else {
        Err(Error::UnexpectedToken { expected: Expected::Type, found: t.clone() })
    }
}

/// How many tokens the type at the start of `tokens` takes.
pub fn type_len(tokens: &[Token]) -> (r: Result<usize, Error>)
    ensures
        agrees_pos(r, spec_type_len(tokens@)),
        r matches Ok(n) ==> 0 < n <= tokens@.len(),
    decreases tokens@.len(),
{
    proof {
        lemma_type_head_bounds(tokens@);
        lemma_type_len_bounds(tokens@);
    }
    let (of, h) = head_of_type(tokens)?;
    if !of {
        skip_constraints(tokens, h)
    } else {
        let rest = slice_subrange(tokens, h, tokens.len());
        assert(rest@ == tokens@.skip(h as int));
        let m = type_len(rest)?;
        Ok(h + m)
    }
}

/// Reads the type at the start of `tokens`: its tokens' texts and their count.
pub fn parse_type(tokens: &[Token]) -> (r: Result<(Asn1Type, usize), Error>)
    ensures
        agrees(r, spec_parse_type(tokens@)),
        r matches Ok((_, n)) ==> 0 < n <= tokens@.len(),
{
    let n = type_len(tokens)?;
    let v = token_texts(tokens, 0, n);
    assert(tokens@.subrange(0, n as int) == tokens@.take(n as int));
    Ok((Asn1Type { tokens: v }, n))
}

} // verus!
