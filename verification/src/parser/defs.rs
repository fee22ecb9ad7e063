//! Top level handling of definitions: value, type, class and object set
//! assignments, and the formal parameters of parameterized types.
use vstd::prelude::*;
use vstd::slice::slice_subrange;
use crate::error::{Error, Expected};
use crate::structs::{
    strings_view, Asn1AssignmentKind, Asn1Definition, Asn1ObjectClassAssignment, Asn1ObjectSet,
    Asn1ObjectSetAssignment, Asn1TypeAssignment, lemma_strings_view_push, Asn1ValueAssignment, AssignmentView,
    DefinitionParam, DefinitionView, DummyReferenceKind, GovernerKind, ParamDummyReference,
    ParamGoverner,
};
use crate::token::{is_class_ref_char, is_upper, Token, TokenKind};
use super::ioc::{parse_class, spec_parse_class};
use super::types::{parse_type, spec_parse_type};
use super::utils::{
    agrees, holds_any, expect_keyword, expect_one_of_tokens, expect_token, expect_tokens, parse_set_ish_value,
    spec_parse_set_ish_value, TokenClass,
};
use super::values::{parse_value, spec_parse_value};

verus! {

/// A definition at the start of `toks`: a value-like one where it starts with
/// a value reference, a type-like one where it starts with a type reference.
pub open spec fn spec_parse_definition(toks: Seq<Token>) -> Result<(DefinitionView, nat), Error> {
    if toks.len() == 0 {
        Err(Error::UnexpectedEndOfTokens)
    } else if toks[0].spec_is_value_reference() {
        spec_parse_valueish_definition(toks)
    } else if toks[0].spec_is_type_reference() {
        spec_parse_typeish_definition(toks)
    } else {
        Err(Error::NotImplemented)
    }
}

/// `valuereference Type ::= Value`
pub open spec fn spec_parse_valueish_definition(toks: Seq<Token>) -> Result<
    (DefinitionView, nat),
    Error,
> {
    if toks.len() == 0 {
        Err(Error::UnexpectedEndOfTokens)
    } else if !toks[0].spec_is_value_reference() {
        Err(Error::UnexpectedToken { expected: Expected::ValueReference, found: toks[0] })
    } else {
        match spec_parse_type(toks.skip(1)) {
            Err(e) => Err(e),
            Ok((typeref, n)) => {
                let c: int = 1 + n as int;
                if c >= toks.len() {
                    Err(Error::UnexpectedEndOfTokens)
                } else if !toks[c].spec_is_assignment() {
                    Err(Error::UnexpectedToken { expected: Expected::Assignment, found: toks[c] })
                } else {
                    match spec_parse_value(toks.skip(c + 1)) {
                        Err(e) => Err(e),
                        Ok((value, m)) => Ok(
                            (
                                DefinitionView {
                                    kind: AssignmentView::Value { id: toks[0].text@, typeref, value },
                                    params: None,
                                },
                                (c + 1 + m) as nat,
                            ),
                        ),
                    }
                }
            },
        }
    }
}

/// The first of a type definition, a class definition and an object set
/// definition that can be read at the start of `toks`.
pub open spec fn spec_parse_typeish_definition(toks: Seq<Token>) -> Result<
    (DefinitionView, nat),
    Error,
>
    recommends
        toks.len() > 0,
{
    match spec_parse_type_definition(toks) {
        Ok(x) => Ok(x),
        Err(_) => match spec_parse_class_definition(toks) {
            Ok(x) => Ok(x),
            Err(_) => match spec_parse_object_set_definition(toks) {
                Ok(x) => Ok(x),
                Err(_) => Err(Error::DefinitionFailed { at: toks[0] }),
            },
        },
    }
}

/// `Typereference [{ params }] ::= Type`; where no parameter list can be
/// read after the name, the definition has none.
pub open spec fn spec_parse_type_definition(toks: Seq<Token>) -> Result<(DefinitionView, nat), Error> {
    if toks.len() == 0 {
        Err(Error::UnexpectedEndOfTokens)
    } else if !toks[0].spec_is_type_reference() {
        Err(Error::UnexpectedToken { expected: Expected::TypeReference, found: toks[0] })
    } else {
        let (params, pc): (Option<Seq<DefinitionParam>>, nat) = match spec_parse_params(
            toks.skip(1),
        ) {
            Ok((p, n)) => (Some(p), n),
            Err(_) => (None, 0),
        };
        let c: int = 1 + pc as int;
        if c >= toks.len() {
            Err(Error::UnexpectedEndOfTokens)
        } else if !toks[c].spec_is_assignment() {
            Err(Error::UnexpectedToken { expected: Expected::Assignment, found: toks[c] })
        } else {
            match spec_parse_type(toks.skip(c + 1)) {
                Err(e) => Err(e),
                Ok((typeref, m)) => Ok(
                    (
                        DefinitionView {
                            kind: AssignmentView::Type { id: toks[0].text@, typeref },
                            params,
                        },
                        (c + 1 + m) as nat,
                    ),
                ),
            }
        }
    }
}

/// `CLASSREFERENCE ::= CLASS { ... }`
pub open spec fn spec_parse_class_definition(toks: Seq<Token>) -> Result<(DefinitionView, nat), Error> {
    if toks.len() == 0 {
        Err(Error::UnexpectedEndOfTokens)
    } else if !toks[0].spec_is_object_class_reference() {
        Err(Error::UnexpectedToken { expected: Expected::ClassReference, found: toks[0] })
    } else if toks.len() <= 1 {
        Err(Error::UnexpectedEndOfTokens)
    } else if !toks[1].spec_is_assignment() {
        Err(Error::UnexpectedToken { expected: Expected::Assignment, found: toks[1] })
    } else if toks.len() <= 2 {
        Err(Error::UnexpectedEndOfTokens)
    } else if !toks[2].spec_is_given_keyword("CLASS") {
        Err(Error::UnexpectedToken { expected: Expected::ClassKeyword, found: toks[2] })
    } else {
        match spec_parse_class(toks.skip(2)) {
            Err(e) => Err(e),
            Ok((classref, m)) => Ok(
                (
                    DefinitionView {
                        kind: AssignmentView::Class { id: toks[0].text@, classref },
                        params: None,
                    },
                    2 + m,
                ),
            ),
        }
    }
}

/// `Typereference CLASSREFERENCE ::= { objects }`
pub open spec fn spec_parse_object_set_definition(toks: Seq<Token>) -> Result<
    (DefinitionView, nat),
    Error,
> {
    if toks.len() == 0 {
        Err(Error::UnexpectedEndOfTokens)
    } else if !toks[0].spec_is_type_reference() {
        Err(Error::UnexpectedToken { expected: Expected::TypeReference, found: toks[0] })
    } else if toks.len() <= 1 {
        Err(Error::UnexpectedEndOfTokens)
    } else if !toks[1].spec_is_object_class_reference() {
        Err(Error::UnexpectedToken { expected: Expected::ClassReference, found: toks[1] })
    } else if toks.len() <= 2 {
        Err(Error::UnexpectedEndOfTokens)
    } else if !toks[2].spec_is_assignment() {
        Err(Error::UnexpectedToken { expected: Expected::Assignment, found: toks[2] })
    } else if toks.len() <= 3 {
        Err(Error::UnexpectedEndOfTokens)
    } else if !toks[3].spec_is_curly_begin() {
        Err(Error::UnexpectedToken { expected: Expected::CurlyBegin, found: toks[3] })
    } else {
        match object_set_items(toks, 4, Seq::empty()) {
            Err(e) => Err(e),
            Ok((objects, n)) => Ok(
                (
                    DefinitionView {
                        kind: AssignmentView::ObjectSet {
                            id: toks[0].text@,
                            class: toks[1].text@,
                            objects,
                        },
                        params: None,
                    },
                    n,
                ),
            ),
        }
    }
}

/// Past one or two extension markers `...` at `pos`, where there are any.
pub open spec fn skip_extension_markers(toks: Seq<Token>, pos: nat) -> Result<nat, Error> {
    if pos >= toks.len() {
        Err(Error::UnexpectedEndOfTokens)
    } else if !toks[pos as int].spec_is_extension() {
        Ok(pos)
    } else if pos + 1 >= toks.len() {
        Err(Error::UnexpectedEndOfTokens)
    } else if toks[pos + 1int].spec_is_extension() {
        Ok(pos + 2)
    } else {
        Ok(pos + 1)
    }
}

/// One object of a set at `pos`: a value between braces, or a reference to an
/// object or to an object set; there may be none.
pub open spec fn object_at(toks: Seq<Token>, pos: nat, objects: Seq<Seq<char>>) -> Result<
    (Seq<Seq<char>>, nat),
    Error,
> {
    match spec_parse_set_ish_value(toks.skip(pos as int)) {
        Ok((v, m)) => Ok((objects.push(v), pos + m)),
        Err(_) => if pos >= toks.len() {
            Err(Error::UnexpectedEndOfTokens)
        } else if toks[pos as int].spec_is_object_set_reference()
            || toks[pos as int].spec_is_object_reference() {
            Ok((objects.push(toks[pos as int].text@), pos + 1))
        } else {
            Ok((objects, pos))
        },
    }
}

/// Past the token at `pos` where it satisfies `class`.
pub open spec fn skip_optional(toks: Seq<Token>, pos: nat, class: TokenClass) -> Result<nat, Error> {
    if pos >= toks.len() {
        Err(Error::UnexpectedEndOfTokens)
    } else if class.spec_holds(toks[pos as int]) {
        Ok(pos + 1)
    } else {
        Ok(pos)
    }
}

/// One round of the objects of a set at `pos`: optional extension markers,
/// an optional object, an optional comma and an optional `|`; the objects so
/// far and the position after the round, where a token must remain.
pub open spec fn object_set_round(toks: Seq<Token>, pos: nat, objects: Seq<Seq<char>>) -> Result<
    (Seq<Seq<char>>, nat),
    Error,
> {
    match skip_extension_markers(toks, pos) {
        Err(e) => Err(e),
        Ok(p1) => match object_at(toks, p1, objects) {
            Err(e) => Err(e),
            Ok((objects2, p2)) => match skip_optional(toks, p2, TokenClass::Comma) {
                Err(e) => Err(e),
                Ok(p3) => match skip_optional(toks, p3, TokenClass::SetUnion) {
                    Err(e) => Err(e),
                    Ok(p4) => if p4 >= toks.len() {
                        Err(Error::UnexpectedEndOfTokens)
                    } else {
                        Ok((objects2, p4))
                    },
                },
            },
        },
    }
}

/// The objects of a set from `pos` on, after `objects`, up to and past the
/// closing brace, round by round; a round that takes nothing and does not
/// close the set is an error.
pub open spec fn object_set_items(toks: Seq<Token>, pos: nat, objects: Seq<Seq<char>>) -> Result<
    (Seq<Seq<char>>, nat),
    Error,
>
    decreases toks.len() - pos,
{
    match object_set_round(toks, pos, objects) {
        Err(e) => Err(e),
        Ok((objects2, p4)) => if p4 >= toks.len() {
            Err(Error::UnexpectedEndOfTokens)
        } else if toks[p4 as int].spec_is_curly_end() {
            Ok((objects2, p4 + 1))
        } else if p4 <= pos {
            Err(Error::NoProgress { at: toks[pos as int] })
        } else {
            object_set_items(toks, p4, objects2)
        },
    }
}

/// `Governor : DummyReference` at `g`, `c`, `r`.
pub open spec fn is_governed_param(g: Token, c: Token, r: Token) -> bool {
    &&& (g.spec_is_type_reference() || g.spec_is_asn_builtin_type()
        || g.spec_is_object_class_reference())
    &&& c.spec_is_colon()
    &&& (r.spec_is_value_reference() || r.spec_is_type_reference())
}

/// The parameter `g : r`: a class governs an object or an object set, a type
/// governs a value or a value set.
pub open spec fn governed_param(g: Token, r: Token) -> DefinitionParam {
    let gk = if g.spec_is_object_class_reference() {
        GovernerKind::Class
    } else {
        GovernerKind::Type
    };
    let dk = if r.spec_is_value_reference() {
        if gk == GovernerKind::Class {
            DummyReferenceKind::Object
        } else {
            DummyReferenceKind::Value
        }
    } else {
        if gk == GovernerKind::Class {
            DummyReferenceKind::ObjectSet
        } else {
            DummyReferenceKind::ValueSet
        }
    };
    DefinitionParam {
        governer: Some(ParamGoverner { name: g.text, kind: gk }),
        dummyref: ParamDummyReference { name: r.text, kind: dk },
    }
}

/// The parameter `r` without a governor: a class or a type.
pub open spec fn ungoverned_param(r: Token) -> DefinitionParam {
    DefinitionParam {
        governer: None,
        dummyref: ParamDummyReference {
            name: r.text,
            kind: if r.spec_is_object_class_reference() {
                DummyReferenceKind::Class
            } else {
                DummyReferenceKind::Type
            },
        },
    }
}

/// The formal parameters between braces at the start of `toks`.
pub open spec fn spec_parse_params(toks: Seq<Token>) -> Result<(Seq<DefinitionParam>, nat), Error> {
    if toks.len() == 0 {
        Err(Error::UnexpectedEndOfTokens)
    } else if !toks[0].spec_is_curly_begin() {
        Err(Error::UnexpectedToken { expected: Expected::CurlyBegin, found: toks[0] })
    } else {
        params_items(toks, 1, Seq::empty())
    }
}

/// The parameters from `pos` on, after `params`, up to and past the closing
/// brace. A governed parameter is only recognised where three tokens remain.
pub open spec fn params_items(toks: Seq<Token>, pos: nat, params: Seq<DefinitionParam>) -> Result<
    (Seq<DefinitionParam>, nat),
    Error,
>
    decreases toks.len() - pos,
{
    if pos + 3 > toks.len() {
        Err(Error::UnexpectedEndOfTokens)
    } else {
        let step: Result<(DefinitionParam, nat), Error> = if is_governed_param(
            toks[pos as int],
            toks[pos + 1int],
            toks[pos + 2int],
        ) {
            Ok((governed_param(toks[pos as int], toks[pos + 2int]), pos + 3))
        } else if toks[pos as int].spec_is_type_reference()
            || toks[pos as int].spec_is_object_class_reference() {
            Ok((ungoverned_param(toks[pos as int]), pos + 1))
        } else {
            Err(Error::ParamsFailed { at: toks[pos as int] })
        };
        match step {
            Err(e) => Err(e),
            Ok((param, p)) => match skip_optional(toks, p, TokenClass::Comma) {
                Err(e) => Err(e),
                Ok(p2) => if p2 >= toks.len() {
                    Err(Error::UnexpectedEndOfTokens)
                } else if toks[p2 as int].spec_is_curly_end() {
                    Ok((params.push(param), p2 + 1))
                } else {
                    params_items(toks, p2, params.push(param))
                },
            },
        }
    }
}

/// Reads one definition at the start of `tokens`: the definition and the
/// number of tokens it takes.
pub fn parse_definition(tokens: &[Token]) -> (r: Result<(Asn1Definition, usize), Error>)
    ensures
        agrees(r, spec_parse_definition(tokens@)),
        r matches Ok((_, n)) ==> 0 < n <= tokens@.len(),
{
    let consumed: usize = 0;
    let rest = slice_subrange(tokens, consumed, tokens.len());
    assert(rest@ =~= tokens@);
    let classes = [TokenClass::ValueReference, TokenClass::TypeReference];
    if expect_one_of_tokens(rest, &classes)? {
        assert(tokens@[0].spec_is_value_reference() || tokens@[0].spec_is_type_reference()) by {
            let i = choose|i: int| 0 <= i < 2 && #[trigger] classes@[i].spec_holds(tokens@[0]);
        }
        let next = &tokens[consumed];
        if next.is_value_reference() {
            parse_valueish_definition(rest)
        } else {
            parse_typeish_definition(rest)
        }
    } else {
        assert(!classes@[0].spec_holds(tokens@[0]) && !classes@[1].spec_holds(tokens@[0]));
        Err(Error::NotImplemented)
    }
}

/// Reads `valuereference Type ::= Value` (a value or an object assignment)
/// at the start of `tokens`.
pub fn parse_valueish_definition(tokens: &[Token]) -> (r: Result<(Asn1Definition, usize), Error>)
    ensures
        agrees(r, spec_parse_valueish_definition(tokens@)),
        r matches Ok((_, n)) ==> 0 < n <= tokens@.len(),
{
    let mut consumed: usize = 0;

    assert(tokens@.subrange(0, tokens@.len() as int) =~= tokens@);
    if !expect_token(slice_subrange(tokens, consumed, tokens.len()), TokenClass::ValueReference)? {
        return Err(
            Error::UnexpectedToken { expected: Expected::ValueReference, found: tokens[consumed].clone() },
        );
    }
    let id = tokens[consumed].text.clone();
    consumed += 1;

    let (typeref, typeref_consumed) = parse_type(slice_subrange(tokens, consumed, tokens.len()))?;
    consumed += typeref_consumed;

    if !expect_token(slice_subrange(tokens, consumed, tokens.len()), TokenClass::Assignment)? {
        return Err(
            Error::UnexpectedToken { expected: Expected::Assignment, found: tokens[consumed].clone() },
        );
    }
    consumed += 1;

    let (value, value_consumed) = parse_value(slice_subrange(tokens, consumed, tokens.len()))?;
    consumed += value_consumed;

    Ok(
        (
            Asn1Definition {
                kind: Asn1AssignmentKind::Value(Asn1ValueAssignment { id, typeref, value }),
                params: None,
            },
            consumed,
        ),
    )
}

/// Reads a type definition, else a class definition, else an object set
/// definition at the start of `tokens`.
pub fn parse_typeish_definition(tokens: &[Token]) -> (r: Result<(Asn1Definition, usize), Error>)
    requires
        tokens@.len() > 0,
    ensures
        agrees(r, spec_parse_typeish_definition(tokens@)),
        r matches Ok((_, n)) ==> 0 < n <= tokens@.len(),
{
    match parse_type_definition(tokens) {
        Ok(x) => {
            return Ok(x);
        },
        Err(_) => {},
    }

    match parse_class_definition(tokens) {
        Ok(x) => {
            return Ok(x);
        },
        Err(_) => {},
    }

    match parse_object_set_definition(tokens) {
        Ok(x) => {
            return Ok(x);
        },
        Err(_) => {},
    }

    Err(Error::DefinitionFailed { at: tokens[0].clone() })
}

/// Reads `Typereference [{ params }] ::= Type` at the start of `tokens`.
#[verifier::rlimit(30)]
pub fn parse_type_definition(tokens: &[Token]) -> (r: Result<(Asn1Definition, usize), Error>)
    ensures
        agrees(r, spec_parse_type_definition(tokens@)),
        r matches Ok((_, n)) ==> 0 < n <= tokens@.len(),
{
    let mut consumed: usize = 0;

    assert(tokens@.subrange(0, tokens@.len() as int) =~= tokens@);
    if !expect_token(slice_subrange(tokens, consumed, tokens.len()), TokenClass::TypeReference)? {
        return Err(
            Error::UnexpectedToken { expected: Expected::TypeReference, found: tokens[consumed].clone() },
        );
    }
    let id = tokens[consumed].text.clone();
    consumed += 1;

    let (params, params_consumed) = match parse_params(
        slice_subrange(tokens, consumed, tokens.len()),
    ) {
        Ok(result) => (Some(result.0), result.1),
        Err(_) => (None, 0),
    };
    consumed += params_consumed;

    if !expect_token(slice_subrange(tokens, consumed, tokens.len()), TokenClass::Assignment)? {
        return Err(
            Error::UnexpectedToken { expected: Expected::Assignment, found: tokens[consumed].clone() },
        );
    }
    consumed += 1;

    let (typeref, typeref_consumed) = parse_type(slice_subrange(tokens, consumed, tokens.len()))?;
    consumed += typeref_consumed;

    Ok(
        (
            Asn1Definition {
                kind: Asn1AssignmentKind::Type(Asn1TypeAssignment { id, typeref }),
                params,
            },
            consumed,
        ),
    )
}

/// Reads `CLASSREFERENCE ::= CLASS { ... }` at the start of `tokens`.
pub fn parse_class_definition(tokens: &[Token]) -> (r: Result<(Asn1Definition, usize), Error>)
    ensures
        agrees(r, spec_parse_class_definition(tokens@)),
        r matches Ok((_, n)) ==> 0 < n <= tokens@.len(),
{
    let mut consumed: usize = 0;
    assert(tokens@.subrange(0, tokens@.len() as int) =~= tokens@);
    if !expect_token(
        slice_subrange(tokens, consumed, tokens.len()),
        TokenClass::ObjectClassReference,
    )? {
        return Err(
            Error::UnexpectedToken { expected: Expected::ClassReference, found: tokens[consumed].clone() },
        );
    }
    let id = tokens[consumed].text.clone();
    consumed += 1;

    if !expect_token(slice_subrange(tokens, consumed, tokens.len()), TokenClass::Assignment)? {
        return Err(
            Error::UnexpectedToken { expected: Expected::Assignment, found: tokens[consumed].clone() },
        );
    }
    consumed += 1;

    if !expect_keyword(slice_subrange(tokens, consumed, tokens.len()), "CLASS")? {
        return Err(
            Error::UnexpectedToken { expected: Expected::ClassKeyword, found: tokens[consumed].clone() },
        );
    }

    let (classref, classref_consumed) = parse_class(slice_subrange(tokens, consumed, tokens.len()))?;
    consumed += classref_consumed;

    Ok(
        (
            Asn1Definition {
                kind: Asn1AssignmentKind::Class(Asn1ObjectClassAssignment { id, classref }),
                params: None,
            },
            consumed,
        ),
    )
}

/// Reads `Typereference CLASSREFERENCE ::= { objects }` at the start of
/// `tokens`.
pub fn parse_object_set_definition(tokens: &[Token]) -> (r: Result<(Asn1Definition, usize), Error>)
    ensures
        agrees(r, spec_parse_object_set_definition(tokens@)),
        r matches Ok((_, n)) ==> 0 < n <= tokens@.len(),
{
    let mut consumed: usize = 0;

    assert(tokens@.subrange(0, tokens@.len() as int) =~= tokens@);
    if !expect_token(slice_subrange(tokens, consumed, tokens.len()), TokenClass::TypeReference)? {
        return Err(
            Error::UnexpectedToken { expected: Expected::TypeReference, found: tokens[consumed].clone() },
        );
    }
    let id = tokens[consumed].text.clone();
    consumed += 1;

    if !expect_token(
        slice_subrange(tokens, consumed, tokens.len()),
        TokenClass::ObjectClassReference,
    )? {
        return Err(
            Error::UnexpectedToken { expected: Expected::ClassReference, found: tokens[consumed].clone() },
        );
    }
    let class = tokens[consumed].text.clone();
    consumed += 1;

    if !expect_token(slice_subrange(tokens, consumed, tokens.len()), TokenClass::Assignment)? {
        return Err(
            Error::UnexpectedToken { expected: Expected::Assignment, found: tokens[consumed].clone() },
        );
    }
    consumed += 1;

    if !expect_token(slice_subrange(tokens, consumed, tokens.len()), TokenClass::CurlyBegin)? {
        return Err(
            Error::UnexpectedToken { expected: Expected::CurlyBegin, found: tokens[consumed].clone() },
        );
    }
    consumed += 1;

    let ghost target = object_set_items(tokens@, 4, Seq::empty());
    let mut objects: Vec<String> = Vec::new();
    assert(strings_view(objects@) =~= Seq::<Seq<char>>::empty());
    loop
        invariant_except_break
            4 <= consumed <= tokens@.len(),
            object_set_items(tokens@, consumed as nat, strings_view(objects@)) == target,
        invariant
            tokens@.len() > 3,
            spec_parse_object_set_definition(tokens@) == match target {
                Err(e) => Err(e),
                Ok((objects, n)) => Ok(
                    (
                        DefinitionView {
                            kind: AssignmentView::ObjectSet { id: id@, class: class@, objects },
                            params: None,
                        },
                        n,
                    ),
                ),
            },
        ensures
            0 < consumed <= tokens@.len(),
            target == Ok::<(Seq<Seq<char>>, nat), Error>((strings_view(objects@), consumed as nat)),
        decreases tokens@.len() - consumed,
    {
        let start = consumed;
        consumed = object_set_round_exec(tokens, consumed, &mut objects)?;

        if expect_token(slice_subrange(tokens, consumed, tokens.len()), TokenClass::CurlyEnd)? {
            consumed += 1;
            break ;
        }

        if consumed == start {
            return Err(Error::NoProgress { at: tokens[start].clone() });
        }
    }

    Ok(
        (
            Asn1Definition {
                kind: Asn1AssignmentKind::ObjectSet(
                    Asn1ObjectSetAssignment { id, set: Asn1ObjectSet { class, objects } },
                ),
                params: None,
            },
            consumed,
        ),
    )
}

/// Reads one round of the objects of a set at `pos`, adding its object, if
/// any, to `objects`; the position after the round.
pub fn object_set_round_exec(tokens: &[Token], pos: usize, objects: &mut Vec<String>) -> (r: Result<
    usize,
    Error,
>)
    requires
        pos <= tokens@.len(),
    ensures
        match (r, object_set_round(tokens@, pos as nat, strings_view(old(objects)@))) {
            (Ok(p), Ok((objs, q))) => p == q && strings_view(final(objects)@) == objs,
            (Err(e), Err(f)) => e == f,
            _ => false,
        },
        r matches Ok(p) ==> pos <= p < tokens@.len(),
{
    let ghost objects_before = strings_view(objects@);
    let mut consumed = pos;
    if expect_token(slice_subrange(tokens, consumed, tokens.len()), TokenClass::Extension)? {
        consumed += 1;
        if expect_token(slice_subrange(tokens, consumed, tokens.len()), TokenClass::Extension)? {
            consumed += 1;
        }
    }
    assert(skip_extension_markers(tokens@, pos as nat) == Ok::<nat, Error>(consumed as nat));
    let ghost p1 = consumed;

    match parse_set_ish_value(slice_subrange(tokens, consumed, tokens.len())) {
        Ok(result) => {
            let (value, value_consumed) = result;
            proof {
                lemma_strings_view_push(objects@, value);
            }
            objects.push(value);
            consumed += value_consumed;
        },
        Err(_) => {
            let classes = [TokenClass::ObjectSetReference, TokenClass::ObjectReference];
            if expect_one_of_tokens(slice_subrange(tokens, consumed, tokens.len()), &classes)? {
                assert(tokens@[consumed as int].spec_is_object_set_reference()
                    || tokens@[consumed as int].spec_is_object_reference()) by {
                    let i = choose|i: int|
                        0 <= i < 2 && #[trigger] classes@[i].spec_holds(tokens@[consumed as int]);
                }
                proof {
                    lemma_strings_view_push(objects@, tokens@[consumed as int].text);
                }
                objects.push(tokens[consumed].text.clone());
                consumed += 1;
            } else {
                assert(!classes@[0].spec_holds(tokens@[consumed as int])
                    && !classes@[1].spec_holds(tokens@[consumed as int]));
            }
        },
    }
    assert(object_at(tokens@, p1 as nat, objects_before) == Ok::<(Seq<Seq<char>>, nat), Error>(
        (strings_view(objects@), consumed as nat),
    ));

    if expect_token(slice_subrange(tokens, consumed, tokens.len()), TokenClass::Comma)? {
        consumed += 1;
    }

    if expect_token(slice_subrange(tokens, consumed, tokens.len()), TokenClass::SetUnion)? {
        consumed += 1;
    }
    if consumed >= tokens.len() {
        return Err(Error::UnexpectedEndOfTokens);
    }
    Ok(consumed)
}

/// Reads the formal parameters `{ Governor : Reference, Reference, ... }` at
/// the start of `tokens`.
pub fn parse_params(tokens: &[Token]) -> (r: Result<(Vec<DefinitionParam>, usize), Error>)
    ensures
        agrees(r, spec_parse_params(tokens@)),
        r matches Ok((_, n)) ==> 0 < n <= tokens@.len(),
{
    let mut consumed: usize = 0;

    assert(tokens@.subrange(0, tokens@.len() as int) =~= tokens@);
    if !expect_token(slice_subrange(tokens, consumed, tokens.len()), TokenClass::CurlyBegin)? {
        return Err(
            Error::UnexpectedToken { expected: Expected::CurlyBegin, found: tokens[consumed].clone() },
        );
    }
    consumed += 1;

    let ghost target = params_items(tokens@, 1, Seq::empty());
    let mut params: Vec<DefinitionParam> = Vec::new();
    loop
        invariant_except_break
            1 <= consumed <= tokens@.len(),
            params_items(tokens@, consumed as nat, params@) == target,
        invariant
            tokens@.len() > 0,
            tokens@[0].spec_is_curly_begin(),
            target == params_items(tokens@, 1, Seq::empty()),
        ensures
            0 < consumed <= tokens@.len(),
            target == Ok::<(Seq<DefinitionParam>, nat), Error>((params@, consumed as nat)),
        decreases tokens@.len() - consumed,
    {
        let ghost start = consumed;
        let governer_classes = [
            TokenClass::TypeReference,
            TokenClass::AsnBuiltinType,
            TokenClass::ObjectClassReference,
        ];
        let colon_classes = [TokenClass::Colon];
        let dummy_classes = [TokenClass::ValueReference, TokenClass::TypeReference];
        let pattern: [&[TokenClass]; 3] = [&governer_classes, &colon_classes, &dummy_classes];
        assert(governer_classes@ =~= seq![
            TokenClass::TypeReference,
            TokenClass::AsnBuiltinType,
            TokenClass::ObjectClassReference,
        ]);
        assert(colon_classes@ =~= seq![TokenClass::Colon]);
        assert(dummy_classes@ =~= seq![TokenClass::ValueReference, TokenClass::TypeReference]);
        assert(pattern@.len() == 3);
        assert(pattern@[0]@ == governer_classes@);
        assert(pattern@[1]@ == colon_classes@);
        assert(pattern@[2]@ == dummy_classes@);
        // Try to parse the Governer: DummyReference if fails, whatever remains is a Type or Class
        let (governer, dummyref) = if expect_tokens(
            slice_subrange(tokens, consumed, tokens.len()),
            &pattern,
        )? {
            proof {
                lemma_param_pattern(pattern@, tokens@.subrange(consumed as int, tokens@.len() as int));
            }
            let (g, r) = (&tokens[consumed], &tokens[consumed + 2]);
            let governer = if g.is_object_class_reference() {
                ParamGoverner { name: g.text.clone(), kind: GovernerKind::Class }
            } else {
                ParamGoverner { name: g.text.clone(), kind: GovernerKind::Type }
            };
            let dummyref = if r.is_value_reference() {
                if governer.kind == GovernerKind::Class {
                    ParamDummyReference { name: r.text.clone(), kind: DummyReferenceKind::Object }
                } else {
                    ParamDummyReference { name: r.text.clone(), kind: DummyReferenceKind::Value }
                }
            } else {
                if governer.kind == GovernerKind::Class {
                    ParamDummyReference {
                        name: r.text.clone(),
                        kind: DummyReferenceKind::ObjectSet,
                    }
                } else {
                    ParamDummyReference {
                        name: r.text.clone(),
                        kind: DummyReferenceKind::ValueSet,
                    }
                }
            };
            consumed += 3;
            (Some(governer), dummyref)
        } else {
            proof {
                lemma_param_pattern(pattern@, tokens@.subrange(consumed as int, tokens@.len() as int));
            }
            let classes = [TokenClass::TypeReference, TokenClass::ObjectClassReference];
            if expect_one_of_tokens(slice_subrange(tokens, consumed, tokens.len()), &classes)? {
                assert(tokens@[consumed as int].spec_is_type_reference()
                    || tokens@[consumed as int].spec_is_object_class_reference()) by {
                    let i = choose|i: int|
                        0 <= i < 2 && #[trigger] classes@[i].spec_holds(tokens@[consumed as int]);
                }
                let r = &tokens[consumed];
                consumed += 1;
                if r.is_object_class_reference() {
                    (None, ParamDummyReference { name: r.text.clone(), kind: DummyReferenceKind::Class })
                } else {
                    (None, ParamDummyReference { name: r.text.clone(), kind: DummyReferenceKind::Type })
                }
            } else {
                assert(!classes@[0].spec_holds(tokens@[consumed as int])
                    && !classes@[1].spec_holds(tokens@[consumed as int]));
                return Err(Error::ParamsFailed { at: tokens[consumed].clone() });
            }
        };
        let param = DefinitionParam { governer, dummyref };
        params.push(param);

        if expect_token(slice_subrange(tokens, consumed, tokens.len()), TokenClass::Comma)? {
            consumed += 1;
        }

        if expect_token(slice_subrange(tokens, consumed, tokens.len()), TokenClass::CurlyEnd)? {
            consumed += 1;
            break ;
        }
    }

    Ok((params, consumed))
}

/// Whether `t` belongs to one of two classes.
pub proof fn lemma_holds_any_two(cs: Seq<TokenClass>, t: Token)
    requires
        cs.len() == 2,
    ensures
        holds_any(cs, t) == (cs[0].spec_holds(t) || cs[1].spec_holds(t)),
{
    if cs[0].spec_holds(t) {
        assert(holds_any(cs, t));
    }
    if cs[1].spec_holds(t) {
        assert(holds_any(cs, t));
    }
}

proof fn lemma_param_pattern(pattern: Seq<&[TokenClass]>, toks: Seq<Token>)
    requires
        pattern.len() == 3,
        pattern[0]@ == seq![
            TokenClass::TypeReference,
            TokenClass::AsnBuiltinType,
            TokenClass::ObjectClassReference,
        ],
        pattern[1]@ == seq![TokenClass::Colon],
        pattern[2]@ == seq![TokenClass::ValueReference, TokenClass::TypeReference],
        toks.len() >= 3,
    ensures
        (forall|i: int| 0 <= i < 3 ==> holds_any(#[trigger] pattern[i]@, toks[i]))
            == is_governed_param(toks[0], toks[1], toks[2]),
{
    let g = pattern[0]@;
    let c = pattern[1]@;
    let d = pattern[2]@;
    if g[0].spec_holds(toks[0]) || g[1].spec_holds(toks[0]) || g[2].spec_holds(toks[0]) {
        if g[0].spec_holds(toks[0]) {
            assert(holds_any(g, toks[0]));
        }
        if g[1].spec_holds(toks[0]) {
            assert(holds_any(g, toks[0]));
        }
        if g[2].spec_holds(toks[0]) {
            assert(holds_any(g, toks[0]));
        }
    }
    if c[0].spec_holds(toks[1]) {
        assert(holds_any(c, toks[1]));
    }
    lemma_holds_any_two(d, toks[2]);
    if is_governed_param(toks[0], toks[1], toks[2]) {
        assert forall|i: int| 0 <= i < 3 implies holds_any(#[trigger] pattern[i]@, toks[i]) by {
            if i == 0 {
            } else if i == 1 {
            } else {
            }
        }
    } else {
        if holds_any(g, toks[0]) && holds_any(c, toks[1]) && holds_any(d, toks[2]) {
            assert(false);
        }
        assert(!holds_any(pattern[0]@, toks[0]) || !holds_any(pattern[1]@, toks[1]) || !holds_any(
            pattern[2]@,
            toks[2],
        ));
    }
}

/// A parameter is consistent: a governed one stands for an object or an
/// object set exactly when its governor is a class, and for a value or a
/// value set otherwise; one without a governor stands for a type or a class.
pub open spec fn param_consistent(p: DefinitionParam) -> bool {
    match p.governer {
        Some(g) => if g.kind == GovernerKind::Class {
            p.dummyref.kind == DummyReferenceKind::Object || p.dummyref.kind
                == DummyReferenceKind::ObjectSet
        } else {
            p.dummyref.kind == DummyReferenceKind::Value || p.dummyref.kind
                == DummyReferenceKind::ValueSet
        },
        None => p.dummyref.kind == DummyReferenceKind::Type || p.dummyref.kind
            == DummyReferenceKind::Class,
    }
}

proof fn lemma_params_items_consistent(toks: Seq<Token>, pos: nat, params: Seq<DefinitionParam>)
    requires
        forall|i: int| 0 <= i < params.len() ==> param_consistent(#[trigger] params[i]),
    ensures
        params_items(toks, pos, params) matches Ok((ps, _)) ==> forall|i: int|
            0 <= i < ps.len() ==> param_consistent(#[trigger] ps[i]),
    decreases toks.len() - pos,
{
    if pos + 3 <= toks.len() {
        let step: Result<(DefinitionParam, nat), Error> = if is_governed_param(
            toks[pos as int],
            toks[pos + 1int],
            toks[pos + 2int],
        ) {
            Ok((governed_param(toks[pos as int], toks[pos + 2int]), pos + 3))
        } else if toks[pos as int].spec_is_type_reference()
            || toks[pos as int].spec_is_object_class_reference() {
            Ok((ungoverned_param(toks[pos as int]), pos + 1))
        } else {
            Err(Error::ParamsFailed { at: toks[pos as int] })
        };
        if let Ok((param, p)) = step {
            assert(param_consistent(param));
            let ps = params.push(param);
            assert forall|i: int| 0 <= i < ps.len() implies param_consistent(#[trigger] ps[i]) by {
                if i < params.len() {
                    assert(ps[i] == params[i]);
                }
            }
            if let Ok(p2) = skip_optional(toks, p, TokenClass::Comma) {
                if p2 < toks.len() && !toks[p2 as int].spec_is_curly_end() {
                    lemma_params_items_consistent(toks, p2, ps);
                }
            }
        }
    }
}

/// Every formal parameter that is read is consistent: a class governs an
/// object or an object set, a type governs a value or a value set, and a
/// parameter without a governor is a type or a class.
pub proof fn law_params_consistent(toks: Seq<Token>)
    ensures
        spec_parse_params(toks) matches Ok((ps, _)) ==> forall|i: int|
            0 <= i < ps.len() ==> param_consistent(#[trigger] ps[i]),
{
    lemma_params_items_consistent(toks, 1, Seq::empty());
}

/// The name that a definition defines.
pub open spec fn defined_name(d: DefinitionView) -> Seq<char> {
    match d.kind {
        AssignmentView::Value { id, .. } => id,
        AssignmentView::Type { id, .. } => id,
        AssignmentView::Class { id, .. } => id,
        AssignmentView::ObjectSet { id, .. } => id,
    }
}

/// A definition that is read defines the name of its first token; it is a
/// value assignment exactly when that name is a value reference; a class
/// definition names a class; an object set names its class second; only a
/// type definition has parameters, and these are consistent.
pub proof fn law_definition_shape(toks: Seq<Token>)
    ensures
        spec_parse_definition(toks) matches Ok((d, _)) ==> {
            &&& toks.len() > 0
            &&& defined_name(d) == toks[0].text@
            &&& (d.kind is Value <==> toks[0].spec_is_value_reference())
            &&& (d.kind is Class ==> toks[0].spec_is_object_class_reference())
            &&& (d.kind is ObjectSet ==> toks.len() > 1 && toks[1].spec_is_object_class_reference())
            &&& (d.params is Some ==> d.kind is Type)
            &&& (d.params matches Some(ps) ==> forall|i: int|
                0 <= i < ps.len() ==> param_consistent(#[trigger] ps[i]))
        },
{
    if toks.len() > 0 {
        law_params_consistent(toks.skip(1));
        if toks[0].spec_is_value_reference() {
            assert(!toks[0].spec_is_type_reference());
        }
    }
}

/// Whether a text spells a class reference: an upper-case letter first, then
/// only upper-case letters, digits and hyphens.
pub open spec fn is_class_reference_text(t: Seq<char>) -> bool {
    &&& t.len() > 0
    &&& is_upper(t[0])
    &&& forall|i: int| 0 <= i < t.len() ==> is_class_ref_char(#[trigger] t[i])
}

/// The kind of a parameter follows from the text of its names: one without a
/// governor is a class exactly when its name spells a class reference, and a
/// type otherwise; a governor that is a class spells a class reference.
pub open spec fn param_kind_follows_names(p: DefinitionParam) -> bool {
    &&& p.governer is None ==> (p.dummyref.kind == DummyReferenceKind::Class
        <==> is_class_reference_text(p.dummyref.name@))
    &&& p.governer is None ==> (p.dummyref.kind == DummyReferenceKind::Class || p.dummyref.kind
        == DummyReferenceKind::Type)
    &&& match p.governer {
        Some(g) => g.kind == GovernerKind::Class ==> is_class_reference_text(g.name@),
        None => true,
    }
}

proof fn lemma_params_items_kinds(toks: Seq<Token>, pos: nat, params: Seq<DefinitionParam>)
    requires
        forall|i: int| 0 <= i < params.len() ==> param_kind_follows_names(#[trigger] params[i]),
    ensures
        params_items(toks, pos, params) matches Ok((ps, _)) ==> forall|i: int|
            0 <= i < ps.len() ==> param_kind_follows_names(#[trigger] ps[i]),
    decreases toks.len() - pos,
{
    if pos + 3 <= toks.len() {
        let t = toks[pos as int];
        let step: Result<(DefinitionParam, nat), Error> = if is_governed_param(
            t,
            toks[pos + 1int],
            toks[pos + 2int],
        ) {
            Ok((governed_param(t, toks[pos + 2int]), pos + 3))
        } else if t.spec_is_type_reference() || t.spec_is_object_class_reference() {
            Ok((ungoverned_param(t), pos + 1))
        } else {
            Err(Error::ParamsFailed { at: t })
        };
        if let Ok((param, p)) = step {
            if is_governed_param(t, toks[pos + 1int], toks[pos + 2int]) {
                if t.spec_is_object_class_reference() {
                    assert(is_class_reference_text(t.text@));
                }
            } else {
                if t.spec_is_object_class_reference() {
                    assert(is_class_reference_text(t.text@));
                } else {
                    assert(t.spec_is_type_reference());
                    assert(!is_class_reference_text(t.text@));
                }
            }
            assert(param_kind_follows_names(param));
            let ps = params.push(param);
            assert forall|i: int| 0 <= i < ps.len() implies param_kind_follows_names(
                #[trigger] ps[i],
            ) by {
                if i < params.len() {
                    assert(ps[i] == params[i]);
                }
            }
            if let Ok(p2) = skip_optional(toks, p, TokenClass::Comma) {
                if p2 < toks.len() && !toks[p2 as int].spec_is_curly_end() {
                    lemma_params_items_kinds(toks, p2, ps);
                }
            }
        }
    }
}

/// A formal parameter without a governor is a class exactly when its name is
/// spelled like a class reference (upper-case letters, digits and hyphens
/// only), and a type otherwise; a class governor is spelled like a class
/// reference.
pub proof fn law_params_kinds_follow_names(toks: Seq<Token>)
    ensures
        spec_parse_params(toks) matches Ok((ps, _)) ==> forall|i: int|
            0 <= i < ps.len() ==> param_kind_follows_names(#[trigger] ps[i]),
{
    lemma_params_items_kinds(toks, 1, Seq::empty());
}

/// A token that can stand as an object of a set by itself: a reference to an
/// object or to an object set.
pub open spec fn is_reference_item(t: Token) -> bool {
    t.spec_is_value_reference() || t.spec_is_type_reference()
}

/// `,` or `|` between two objects of a set.
pub open spec fn is_item_separator(t: Token) -> bool {
    t.kind == TokenKind::Comma || t.kind == TokenKind::SetUnion
}

/// The texts of the `k` items of a set laid out from token 4 on, one every
/// two tokens.
pub open spec fn reference_items(toks: Seq<Token>, k: nat) -> Seq<Seq<char>> {
    Seq::new(k, |i: int| toks[4 + 2 * i].text@)
}

/// Whether `toks` is `Id CLASS ::= { r1 s r2 s ... rk }` with `k` references
/// `ri` and separators `s` (`,` or `|`).
pub open spec fn is_set_of_references(toks: Seq<Token>, k: nat) -> bool {
    &&& k >= 1
    &&& toks.len() == 4 + 2 * k
    &&& toks[0].spec_is_type_reference()
    &&& toks[1].spec_is_object_class_reference()
    &&& toks[2].spec_is_assignment()
    &&& toks[3].spec_is_curly_begin()
    &&& forall|i: int| 0 <= i < k ==> is_reference_item(#[trigger] toks[4 + 2 * i])
    &&& forall|i: int| 0 <= i < k - 1 ==> is_item_separator(#[trigger] toks[5 + 2 * i])
    &&& toks[3 + 2 * (k as int)].spec_is_curly_end()
}

proof fn lemma_reference_items_from(toks: Seq<Token>, k: nat, i: nat)
    requires
        is_set_of_references(toks, k),
        i < k,
    ensures
        object_set_items(toks, 4 + 2 * i, reference_items(toks, i)) == Ok::<
            (Seq<Seq<char>>, nat),
            Error,
        >((reference_items(toks, k), 4 + 2 * k)),
    decreases k - i,
{
    let pos: nat = 4 + 2 * i;
    let t = toks[pos as int];
    assert(is_reference_item(toks[4 + 2 * (i as int)]));
    assert(t.kind == TokenKind::Identifier);
    assert(skip_extension_markers(toks, pos) == Ok::<nat, Error>(pos));
    assert(toks.skip(pos as int)[0] == t);
    assert(spec_parse_set_ish_value(toks.skip(pos as int)) is Err);
    let objs = reference_items(toks, i).push(t.text@);
    assert(objs =~= reference_items(toks, i + 1));
    assert(object_at(toks, pos, reference_items(toks, i)) == Ok::<(Seq<Seq<char>>, nat), Error>(
        (objs, pos + 1),
    ));
    let sep = toks[pos + 1int];
    if i + 1 < k {
        assert(is_item_separator(toks[5 + 2 * (i as int)]));
        let next = toks[pos + 2int];
        assert(is_reference_item(toks[4 + 2 * (i + 1) as int]));
        assert(next == toks[4 + 2 * (i + 1) as int]);
        assert(next.kind == TokenKind::Identifier);
        assert(object_set_round(toks, pos, reference_items(toks, i)) == Ok::<
            (Seq<Seq<char>>, nat),
            Error,
        >((objs, pos + 2)));
        lemma_reference_items_from(toks, k, i + 1);
    } else {
        assert(sep == toks[3 + 2 * (k as int)]);
        assert(object_set_round(toks, pos, reference_items(toks, i)) == Ok::<
            (Seq<Seq<char>>, nat),
            Error,
        >((objs, pos + 1)));
    }
}

/// Every reference that stands as an object of a set is one of its objects,
/// in order: `Id CLASS ::= { r1 | r2 , ... rk }`, with references `ri` to
/// objects or object sets, defines the set of exactly `[r1, ..., rk]` and
/// takes all its tokens.
pub proof fn law_object_set_of_references(toks: Seq<Token>, k: nat)
    requires
        is_set_of_references(toks, k),
    ensures
        spec_parse_object_set_definition(toks) == Ok::<(DefinitionView, nat), Error>(
            (
                DefinitionView {
                    kind: AssignmentView::ObjectSet {
                        id: toks[0].text@,
                        class: toks[1].text@,
                        objects: reference_items(toks, k),
                    },
                    params: None,
                },
                4 + 2 * k,
            ),
        ),
{
    assert(reference_items(toks, 0) =~= Seq::<Seq<char>>::empty());
    lemma_reference_items_from(toks, k, 0);
}

} // verus!
