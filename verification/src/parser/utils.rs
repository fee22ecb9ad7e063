//! Checks on the next tokens, and the reading of groups of tokens between
//! matching brackets, shared by the parsers of types, values, classes and
//! definitions.
use vstd::prelude::*;
use vstd::slice::slice_subrange;
use crate::error::{Error, Expected};
use crate::token::Token;
use crate::structs::strings_view;

verus! {

/// A class of tokens the parser can ask for.
#[derive(Clone, Copy, Debug, PartialEq, Eq, Structural)]
pub enum TokenClass {
    ValueReference,
    TypeReference,
    ObjectClassReference,
    ObjectReference,
    ObjectSetReference,
    AsnBuiltinType,
    Assignment,
    CurlyBegin,
    CurlyEnd,
    RoundBegin,
    RoundEnd,
    Comma,
    Colon,
    Extension,
    SetUnion,
    Dot,
    AndIdentifier,
}

impl TokenClass {
    pub open spec fn spec_holds(self, t: Token) -> bool {
        match self {
            TokenClass::ValueReference => t.spec_is_value_reference(),
            TokenClass::TypeReference => t.spec_is_type_reference(),
            TokenClass::ObjectClassReference => t.spec_is_object_class_reference(),
            TokenClass::ObjectReference => t.spec_is_object_reference(),
            TokenClass::ObjectSetReference => t.spec_is_object_set_reference(),
            TokenClass::AsnBuiltinType => t.spec_is_asn_builtin_type(),
            TokenClass::Assignment => t.spec_is_assignment(),
            TokenClass::CurlyBegin => t.spec_is_curly_begin(),
            TokenClass::CurlyEnd => t.spec_is_curly_end(),
            TokenClass::RoundBegin => t.spec_is_round_begin(),
            TokenClass::RoundEnd => t.spec_is_round_end(),
            TokenClass::Comma => t.spec_is_comma(),
            TokenClass::Colon => t.spec_is_colon(),
            TokenClass::Extension => t.spec_is_extension(),
            TokenClass::SetUnion => t.spec_is_set_union(),
            TokenClass::Dot => t.spec_is_dot(),
            TokenClass::AndIdentifier => t.spec_is_and_identifier(),
        }
    }

    /// Whether `t` belongs to this class.
    pub fn holds(&self, t: &Token) -> (b: bool)
        ensures
            b == self.spec_holds(*t),
    {
        match self {
            TokenClass::ValueReference => t.is_value_reference(),
            TokenClass::TypeReference => t.is_type_reference(),
            TokenClass::ObjectClassReference => t.is_object_class_reference(),
            TokenClass::ObjectReference => t.is_object_reference(),
            TokenClass::ObjectSetReference => t.is_object_set_reference(),
            TokenClass::AsnBuiltinType => t.is_asn_builtin_type(),
            TokenClass::Assignment => t.is_assignment(),
            TokenClass::CurlyBegin => t.is_curly_begin(),
            TokenClass::CurlyEnd => t.is_curly_end(),
            TokenClass::RoundBegin => t.is_round_begin(),
            TokenClass::RoundEnd => t.is_round_end(),
            TokenClass::Comma => t.is_comma(),
            TokenClass::Colon => t.is_colon(),
            TokenClass::Extension => t.is_extension(),
            TokenClass::SetUnion => t.is_set_union(),
            TokenClass::Dot => t.is_dot(),
            TokenClass::AndIdentifier => t.is_and_identifier(),
        }
    }
}

/// Whether `t` belongs to one of the classes `cs`.
pub open spec fn holds_any(cs: Seq<TokenClass>, t: Token) -> bool {
    exists|i: int| 0 <= i < cs.len() && #[trigger] cs[i].spec_holds(t)
}

/// Whether an exact result and a specified one agree: the same value, by its
/// view, and the same count of tokens, or the same error.
pub open spec fn agrees<T: View>(r: Result<(T, usize), Error>, s: Result<(T::V, nat), Error>) -> bool {
    match (r, s) {
        (Ok((v, n)), Ok((w, m))) => v@ == w && n as nat == m,
        (Err(e), Err(f)) => e == f,
        _ => false,
    }
}

pub open spec fn spec_expect_token(toks: Seq<Token>, class: TokenClass) -> Result<bool, Error> {
    if toks.len() == 0 {
        Err(Error::UnexpectedEndOfTokens)
    } else {
        Ok(class.spec_holds(toks[0]))
    }
}

/// Whether the first token is of class `class`; an error where there is none.
pub fn expect_token(tokens: &[Token], class: TokenClass) -> (r: Result<bool, Error>)
    ensures
        r == spec_expect_token(tokens@, class),
{
    if tokens.len() == 0 {
        Err(Error::UnexpectedEndOfTokens)
    } else {
        Ok(class.holds(&tokens[0]))
    }
}

pub open spec fn spec_expect_one_of_tokens(toks: Seq<Token>, classes: Seq<TokenClass>) -> Result<
    bool,
    Error,
> {
    if toks.len() == 0 {
        Err(Error::UnexpectedEndOfTokens)
    } else {
        Ok(holds_any(classes, toks[0]))
    }
}

/// Whether the first token is of one of the classes `classes`; an error where
/// there is none.
pub fn expect_one_of_tokens(tokens: &[Token], classes: &[TokenClass]) -> (r: Result<bool, Error>)
    ensures
        r == spec_expect_one_of_tokens(tokens@, classes@),
{
    if tokens.len() == 0 {
        return Err(Error::UnexpectedEndOfTokens);
    }
    let mut i: usize = 0;
    while i < classes.len()
        invariant
            i <= classes@.len(),
            tokens@.len() > 0,
            forall|j: int| 0 <= j < i ==> !(#[trigger] classes@[j]).spec_holds(tokens@[0]),
        decreases classes@.len() - i,
    {
        if classes[i].holds(&tokens[0]) {
            return Ok(true);
        }
        i = i + 1;
    }
    Ok(false)
}

pub open spec fn spec_expect_tokens(toks: Seq<Token>, classes: Seq<&[TokenClass]>) -> Result<
    bool,
    Error,
> {
    if toks.len() < classes.len() {
        Err(Error::UnexpectedEndOfTokens)
    } else {
        Ok(forall|i: int| 0 <= i < classes.len() ==> holds_any(#[trigger] classes[i]@, toks[i]))
    }
}

/// Whether the first tokens are, one by one, of one of the classes given for
/// them; an error where there are fewer tokens than lists of classes.
pub fn expect_tokens(tokens: &[Token], classes: &[&[TokenClass]]) -> (r: Result<bool, Error>)
    ensures
        r == spec_expect_tokens(tokens@, classes@),
{
    if tokens.len() < classes.len() {
        return Err(Error::UnexpectedEndOfTokens);
    }
    let mut i: usize = 0;
    while i < classes.len()
        invariant
            i <= classes@.len(),
            classes@.len() <= tokens@.len(),
            forall|j: int| 0 <= j < i ==> holds_any(#[trigger] classes@[j]@, tokens@[j]),
        decreases classes@.len() - i,
    {
        let one = slice_subrange(tokens, i, tokens.len());
        let r = expect_one_of_tokens(one, classes[i]);
        match r {
            Ok(true) => {},
            _ => {
                assert(!holds_any(classes@[i as int]@, tokens@[i as int]));
                return Ok(false);
            },
        }
        i = i + 1;
    }
    Ok(true)
}

pub open spec fn spec_expect_keyword(toks: Seq<Token>, kw: &str) -> Result<bool, Error> {
    if toks.len() == 0 {
        Err(Error::UnexpectedEndOfTokens)
    } else {
        Ok(toks[0].spec_is_given_keyword(kw))
    }
}

/// Whether the first token is the keyword `kw`; an error where there is none.
pub fn expect_keyword(tokens: &[Token], kw: &str) -> (r: Result<bool, Error>)
    ensures
        r == spec_expect_keyword(tokens@, kw),
{
    if tokens.len() == 0 {
        Err(Error::UnexpectedEndOfTokens)
    } else {
        Ok(tokens[0].is_given_keyword(kw))
    }
}

/// The texts of a sequence of tokens.
pub open spec fn texts(toks: Seq<Token>) -> Seq<Seq<char>> {
    toks.map_values(|t: Token| t.text@)
}

/// Copies of the texts of the tokens from `from` up to `to`.
pub fn token_texts(tokens: &[Token], from: usize, to: usize) -> (v: Vec<String>)
    requires
        from <= to <= tokens@.len(),
    ensures
        strings_view(v@) == texts(tokens@.subrange(from as int, to as int)),
{
    let mut v: Vec<String> = Vec::new();
    let mut i = from;
    while i < to
        invariant
            from <= i <= to <= tokens@.len(),
            v@.len() == i - from,
            strings_view(v@) == texts(tokens@.subrange(from as int, i as int)),
        decreases to - i,
    {
        let ghost before = v@;
        v.push(tokens[i].text.clone());
        assert(strings_view(v@) =~= texts(tokens@.subrange(from as int, i + 1))) by {
            let a = strings_view(v@);
            let b = texts(tokens@.subrange(from as int, i + 1));
            assert(v@ == before.push(tokens@[i as int].text));
            assert forall|k: int| 0 <= k < a.len() implies a[k] == b[k] by {
                if k < before.len() {
                    assert(strings_view(before)[k] == texts(
                        tokens@.subrange(from as int, i as int),
                    )[k]);
                } else {
                    assert(a[k] == tokens@[i as int].text@);
                }
            }
        }
        i = i + 1;
    }
    v
}

/// The index just past the token that closes a group, scanning from `pos`
/// with `depth` groups open; `None` where the tokens run out first.
pub open spec fn group_end(
    toks: Seq<Token>,
    pos: int,
    open: TokenClass,
    close: TokenClass,
    depth: nat,
) -> Option<nat>
    decreases toks.len() - pos,
{
    if pos < 0 || pos >= toks.len() {
        None
    } else if close.spec_holds(toks[pos]) {
        if depth <= 1 {
            Some((pos + 1) as nat)
        } else {
            group_end(toks, pos + 1, open, close, (depth - 1) as nat)
        }
    } else if open.spec_holds(toks[pos]) {
        group_end(toks, pos + 1, open, close, depth + 1)
    } else {
        group_end(toks, pos + 1, open, close, depth)
    }
}

pub proof fn lemma_group_end_bounds(
    toks: Seq<Token>,
    pos: int,
    open: TokenClass,
    close: TokenClass,
    depth: nat,
)
    ensures
        group_end(toks, pos, open, close, depth) matches Some(e) ==> pos < e <= toks.len(),
    decreases toks.len() - pos,
{
    if pos < 0 || pos >= toks.len() {
    } else if close.spec_holds(toks[pos]) {
        if depth > 1 {
            lemma_group_end_bounds(toks, pos + 1, open, close, (depth - 1) as nat);
        }
    } else if open.spec_holds(toks[pos]) {
        lemma_group_end_bounds(toks, pos + 1, open, close, depth + 1);
    } else {
        lemma_group_end_bounds(toks, pos + 1, open, close, depth);
    }
}

/// The index just past the token that closes the group opened just before
/// `start`.
pub fn find_group_end(tokens: &[Token], start: usize, open: TokenClass, close: TokenClass) -> (r:
    Option<usize>)
    requires
        1 <= start <= tokens@.len(),
    ensures
        match r {
            Some(e) => group_end(tokens@, start as int, open, close, 1) == Some(e as nat),
            None => group_end(tokens@, start as int, open, close, 1) is None,
        },
        r matches Some(e) ==> start < e <= tokens@.len(),
{
    proof {
        lemma_group_end_bounds(tokens@, start as int, open, close, 1);
    }
    let mut pos = start;
    let mut depth: usize = 1;
    while pos < tokens.len()
        invariant
            start <= pos <= tokens@.len(),
            1 <= start,
            1 <= depth <= pos - start + 1,
            group_end(tokens@, pos as int, open, close, depth as nat) == group_end(
                tokens@,
                start as int,
                open,
                close,
                1,
            ),
        decreases tokens@.len() - pos,
    {
        if close.holds(&tokens[pos]) {
            if depth == 1 {
                return Some(pos + 1);
            }
            depth = depth - 1;
        } else if open.holds(&tokens[pos]) {
            depth = depth + 1;
        }
        pos = pos + 1;
    }
    None
}

/// The texts of the given words, one space between each two.
pub open spec fn join_texts(s: Seq<Seq<char>>) -> Seq<char>
    decreases s.len(),
{
    if s.len() == 0 {
        Seq::empty()
    } else if s.len() == 1 {
        s[0]
    } else {
        join_texts(s.drop_last()) + seq![' '] + s.last()
    }
}

/// The texts of the tokens before `to`, one space between each two.
pub fn join_token_texts(tokens: &[Token], to: usize) -> (s: String)
    requires
        to <= tokens@.len(),
    ensures
        s@ == join_texts(texts(tokens@.take(to as int))),
{
    let mut s = String::new();
    let mut i: usize = 0;
    while i < to
        invariant
            i <= to <= tokens@.len(),
            s@ == join_texts(texts(tokens@.take(i as int))),
        decreases to - i,
    {
        let ghost before = s@;
        if i > 0 {
            proof {
                reveal_strlit(" ");
            }
            s.append(" ");
        }
        s.append(tokens[i].text.as_str());
        let ghost next = texts(tokens@.take(i + 1));
        assert(next.drop_last() =~= texts(tokens@.take(i as int)));
        if i == 0 {
            assert(s@ =~= next[0]);
        } else {
            assert(s@ =~= before + seq![' '] + next.last());
        }
        i = i + 1;
    }
    s
}

pub open spec fn spec_parse_set_ish_value(toks: Seq<Token>) -> Result<(Seq<char>, nat), Error> {
    if toks.len() == 0 {
        Err(Error::UnexpectedEndOfTokens)
    } else if !toks[0].spec_is_curly_begin() {
        Err(Error::UnexpectedToken { expected: Expected::CurlyBegin, found: toks[0] })
    } else {
        match group_end(toks, 1, TokenClass::CurlyBegin, TokenClass::CurlyEnd, 1) {
            None => Err(Error::UnexpectedEndOfTokens),
            Some(e) => Ok((join_texts(texts(toks.take(e as int))), e)),
        }
    }
}

/// Reads a value written between braces, such as an object of a set: its text
/// is that of its tokens, braces included, one space between each two.
pub fn parse_set_ish_value(tokens: &[Token]) -> (r: Result<(String, usize), Error>)
    ensures
        agrees(r, spec_parse_set_ish_value(tokens@)),
        r matches Ok((_, n)) ==> 0 < n <= tokens@.len(),
{
    if tokens.len() == 0 {
        return Err(Error::UnexpectedEndOfTokens);
    }
    if !tokens[0].is_curly_begin() {
        return Err(Error::UnexpectedToken { expected: Expected::CurlyBegin, found: tokens[0].clone() });
    }
    match find_group_end(tokens, 1, TokenClass::CurlyBegin, TokenClass::CurlyEnd) {
        None => Err(Error::UnexpectedEndOfTokens),
        Some(e) => Ok((join_token_texts(tokens, e), e)),
    }
}

} // verus!
