//! Cuts the text of an ASN.1 module into tokens.
use vstd::prelude::*;
use crate::error::Error;
use crate::token::{is_digit, is_lower, is_upper, text_is, Token, TokenKind};

verus! {

broadcast use vstd::string::group_string_axioms;

/// Appends one character to a string, by `String::push`; trusted to leave the
/// characters before it unchanged and to add exactly `c` after them.
#[verifier::external_body]
pub(crate) fn push_char(s: &mut String, c: char)
    ensures
        final(s)@ == old(s)@.push(c),
{
    s.push(c);
}

/// The characters of a string, in order.
pub fn chars_of(s: &str) -> (v: Vec<char>)
    ensures
        v@ == s@,
{
    let mut v: Vec<char> = Vec::new();
    for c in it: s.chars()
        invariant
            v@.len() == it.index(),
            forall|j: int| 0 <= j < v@.len() ==> v@[j] == it.seq()[j],
    {
        v.push(c);
    }
    assert(v@ =~= s@);
    v
}

pub open spec fn is_space(c: char) -> bool {
    c == ' ' || c == '\t' || c == '\n' || c == '\r'
}

pub open spec fn is_letter(c: char) -> bool {
    is_upper(c) || is_lower(c)
}

pub open spec fn is_alnum(c: char) -> bool {
    is_letter(c) || is_digit(c)
}

/// The reserved words of ASN.1 that the tokenizer reads as keywords.
pub open spec fn is_reserved_word(t: Seq<char>) -> bool {
    ||| t == "ABSENT"@
    ||| t == "ALL"@
    ||| t == "APPLICATION"@
    ||| t == "AUTOMATIC"@
    ||| t == "BEGIN"@
    ||| t == "BIT"@
    ||| t == "BOOLEAN"@
    ||| t == "BY"@
    ||| t == "CHARACTER"@
    ||| t == "CHOICE"@
    ||| t == "CLASS"@
    ||| t == "COMPONENT"@
    ||| t == "COMPONENTS"@
    ||| t == "CONSTRAINED"@
    ||| t == "CONTAINING"@
    ||| t == "DATE"@
    ||| t == "DATE-TIME"@
    ||| t == "DEFAULT"@
    ||| t == "DEFINITIONS"@
    ||| t == "DURATION"@
    ||| t == "EMBEDDED"@
    ||| t == "ENCODED"@
    ||| t == "ENCODING-CONTROL"@
    ||| t == "END"@
    ||| t == "ENUMERATED"@
    ||| t == "EXCEPT"@
    ||| t == "EXPLICIT"@
    ||| t == "EXPORTS"@
    ||| t == "EXTENSIBILITY"@
    ||| t == "EXTERNAL"@
    ||| t == "FALSE"@
    ||| t == "FROM"@
    ||| t == "IDENTIFIER"@
    ||| t == "IMPLICIT"@
    ||| t == "IMPLIED"@
    ||| t == "IMPORTS"@
    ||| t == "INCLUDES"@
    ||| t == "INSTANCE"@
    ||| t == "INSTRUCTIONS"@
    ||| t == "INTEGER"@
    ||| t == "INTERSECTION"@
    ||| t == "MAX"@
    ||| t == "MIN"@
    ||| t == "MINUS-INFINITY"@
    ||| t == "NOT-A-NUMBER"@
    ||| t == "NULL"@
    ||| t == "OBJECT"@
    ||| t == "OCTET"@
    ||| t == "OF"@
    ||| t == "OID-IRI"@
    ||| t == "OPTIONAL"@
    ||| t == "PATTERN"@
    ||| t == "PDV"@
    ||| t == "PLUS-INFINITY"@
    ||| t == "PRESENT"@
    ||| t == "PRIVATE"@
    ||| t == "REAL"@
    ||| t == "RELATIVE-OID"@
    ||| t == "RELATIVE-OID-IRI"@
    ||| t == "SEQUENCE"@
    ||| t == "SET"@
    ||| t == "SETTINGS"@
    ||| t == "SIZE"@
    ||| t == "STRING"@
    ||| t == "SYNTAX"@
    ||| t == "TAGS"@
    ||| t == "TIME"@
    ||| t == "TIME-OF-DAY"@
    ||| t == "TRUE"@
    ||| t == "UNION"@
    ||| t == "UNIQUE"@
    ||| t == "UNIVERSAL"@
    ||| t == "WITH"@
}

fn reserved_word(t: &str) -> (b: bool)
    ensures
        b == is_reserved_word(t@),
{
    text_is(t, "ABSENT") || text_is(t, "ALL") || text_is(t, "APPLICATION") || text_is(t, "AUTOMATIC") || text_is(t, "BEGIN") || text_is(t, "BIT") || text_is(t, "BOOLEAN") || text_is(t, "BY") || text_is(t, "CHARACTER") || text_is(t, "CHOICE") || text_is(t, "CLASS") || text_is(t, "COMPONENT") || text_is(t, "COMPONENTS") || text_is(t, "CONSTRAINED") || text_is(t, "CONTAINING") || text_is(t, "DATE") || text_is(t, "DATE-TIME") || text_is(t, "DEFAULT") || text_is(t, "DEFINITIONS") || text_is(t, "DURATION") || text_is(t, "EMBEDDED") || text_is(t, "ENCODED") || text_is(t, "ENCODING-CONTROL") || text_is(t, "END") || text_is(t, "ENUMERATED") || text_is(t, "EXCEPT") || text_is(t, "EXPLICIT") || text_is(t, "EXPORTS") || text_is(t, "EXTENSIBILITY") || text_is(t, "EXTERNAL") || text_is(t, "FALSE") || text_is(t, "FROM") || text_is(t, "IDENTIFIER") || text_is(t, "IMPLICIT") || text_is(t, "IMPLIED") || text_is(t, "IMPORTS") || text_is(t, "INCLUDES") || text_is(t, "INSTANCE") || text_is(t, "INSTRUCTIONS") || text_is(t, "INTEGER") || text_is(t, "INTERSECTION") || text_is(t, "MAX") || text_is(t, "MIN") || text_is(t, "MINUS-INFINITY") || text_is(t, "NOT-A-NUMBER") || text_is(t, "NULL") || text_is(t, "OBJECT") || text_is(t, "OCTET") || text_is(t, "OF") || text_is(t, "OID-IRI") || text_is(t, "OPTIONAL") || text_is(t, "PATTERN") || text_is(t, "PDV") || text_is(t, "PLUS-INFINITY") || text_is(t, "PRESENT") || text_is(t, "PRIVATE") || text_is(t, "REAL") || text_is(t, "RELATIVE-OID") || text_is(t, "RELATIVE-OID-IRI") || text_is(t, "SEQUENCE") || text_is(t, "SET") || text_is(t, "SETTINGS") || text_is(t, "SIZE") || text_is(t, "STRING") || text_is(t, "SYNTAX") || text_is(t, "TAGS") || text_is(t, "TIME") || text_is(t, "TIME-OF-DAY") || text_is(t, "TRUE") || text_is(t, "UNION") || text_is(t, "UNIQUE") || text_is(t, "UNIVERSAL") || text_is(t, "WITH")
}

/// Past the rest of a name from `i` on: letters and digits, and hyphens each
/// followed by a letter or a digit.
pub open spec fn ident_end(s: Seq<char>, i: nat) -> nat
    decreases s.len() - i,
{
    if i < s.len() && is_alnum(s[i as int]) {
        ident_end(s, i + 1)
    } else if i + 1 < s.len() && s[i as int] == '-' && is_alnum(s[i + 1int]) {
        ident_end(s, i + 1)
    } else {
        i
    }
}

pub proof fn lemma_ident_end(s: Seq<char>, i: nat)
    requires
        i <= s.len(),
    ensures
        i <= ident_end(s, i) <= s.len(),
    decreases s.len() - i,
{
    if i < s.len() && is_alnum(s[i as int]) {
        lemma_ident_end(s, i + 1);
    } else if i + 1 < s.len() && s[i as int] == '-' && is_alnum(s[i + 1int]) {
        lemma_ident_end(s, i + 1);
    }
}

/// Past the digits from `i` on.
pub open spec fn digits_end(s: Seq<char>, i: nat) -> nat
    decreases s.len() - i,
{
    if i < s.len() && is_digit(s[i as int]) {
        digits_end(s, i + 1)
    } else {
        i
    }
}

pub proof fn lemma_digits_end(s: Seq<char>, i: nat)
    requires
        i <= s.len(),
    ensures
        i <= digits_end(s, i) <= s.len(),
    decreases s.len() - i,
{
    if i < s.len() && is_digit(s[i as int]) {
        lemma_digits_end(s, i + 1);
    }
}

/// Past the end of a comment that started with `--` before `i`: past the end
/// of the line, or past the next `--`, or at the end of the text.
pub open spec fn line_comment_end(s: Seq<char>, i: nat) -> nat
    decreases s.len() - i,
{
    if i >= s.len() {
        i
    } else if s[i as int] == '\n' {
        i + 1
    } else if s[i as int] == '-' && i + 1 < s.len() && s[i + 1int] == '-' {
        i + 2
    } else {
        line_comment_end(s, i + 1)
    }
}

pub proof fn lemma_line_comment_end(s: Seq<char>, i: nat)
    ensures
        i <= line_comment_end(s, i),
        i <= s.len() ==> line_comment_end(s, i) <= s.len(),
    decreases s.len() - i,
{
    if i < s.len() && s[i as int] != '\n' && !(s[i as int] == '-' && i + 1 < s.len() && s[i
        + 1int] == '-') {
        lemma_line_comment_end(s, i + 1);
    }
}

/// Past the `*/` that ends a comment started with `/*` before `i`.
pub open spec fn block_comment_end(s: Seq<char>, i: nat) -> Option<nat>
    decreases s.len() - i,
{
    if i + 1 >= s.len() {
        None
    } else if s[i as int] == '*' && s[i + 1int] == '/' {
        Some(i + 2)
    } else {
        block_comment_end(s, i + 1)
    }
}

pub proof fn lemma_block_comment_end(s: Seq<char>, i: nat)
    ensures
        block_comment_end(s, i) matches Some(e) ==> i < e <= s.len(),
    decreases s.len() - i,
{
    if i + 1 < s.len() && !(s[i as int] == '*' && s[i + 1int] == '/') {
        lemma_block_comment_end(s, i + 1);
    }
}

/// Past the `"` that ends a string opened before `i`; `""` stands for one `"`
/// inside it.
pub open spec fn string_end(s: Seq<char>, i: nat) -> Option<nat>
    decreases s.len() - i,
{
    if i >= s.len() {
        None
    } else if s[i as int] == '"' {
        if i + 1 < s.len() && s[i + 1int] == '"' {
            string_end(s, i + 2)
        } else {
            Some(i + 1)
        }
    } else {
        string_end(s, i + 1)
    }
}

pub proof fn lemma_string_end(s: Seq<char>, i: nat)
    ensures
        string_end(s, i) matches Some(e) ==> i < e <= s.len(),
    decreases s.len() - i,
{
    if i < s.len() {
        if s[i as int] == '"' {
            if i + 1 < s.len() && s[i + 1int] == '"' {
                lemma_string_end(s, i + 2);
            }
        } else {
            lemma_string_end(s, i + 1);
        }
    }
}

/// The position of the first `'` from `i` on.
pub open spec fn quote_close(s: Seq<char>, i: nat) -> Option<nat>
    decreases s.len() - i,
{
    if i >= s.len() {
        None
    } else if s[i as int] == '\'' {
        Some(i)
    } else {
        quote_close(s, i + 1)
    }
}

pub proof fn lemma_quote_close(s: Seq<char>, i: nat)
    ensures
        quote_close(s, i) matches Some(q) ==> i <= q < s.len() && s[q as int] == '\'',
    decreases s.len() - i,
{
    if i < s.len() && s[i as int] != '\'' {
        lemma_quote_close(s, i + 1);
    }
}

/// Past the blanks and comments from `i` on; an error at an unterminated
/// `/*` comment.
pub open spec fn skip_blank(s: Seq<char>, i: nat) -> Result<nat, Error>
    decreases s.len() - i,
{
    if i >= s.len() {
        Ok(i)
    } else if is_space(s[i as int]) {
        skip_blank(s, i + 1)
    } else if s[i as int] == '-' && i + 1 < s.len() && s[i + 1int] == '-' {
        proof {
            lemma_line_comment_end(s, i + 2);
        }
        skip_blank(s, line_comment_end(s, i + 2))
    } else if s[i as int] == '/' && i + 1 < s.len() && s[i + 1int] == '*' {
        match block_comment_end(s, i + 2) {
            None => Err(Error::Tokenize { offset: i as usize }),
            Some(e) => {
                proof {
                    lemma_block_comment_end(s, i + 2);
                }
                skip_blank(s, e)
            },
        }
    } else {
        Ok(i)
    }
}

pub proof fn lemma_skip_blank(s: Seq<char>, i: nat)
    requires
        i <= s.len(),
    ensures
        skip_blank(s, i) matches Ok(j) ==> i <= j <= s.len(),
    decreases s.len() - i,
{
    if i >= s.len() {
    } else if is_space(s[i as int]) {
        lemma_skip_blank(s, i + 1);
    } else if s[i as int] == '-' && i + 1 < s.len() && s[i + 1int] == '-' {
        lemma_line_comment_end(s, i + 2);
        lemma_skip_blank(s, line_comment_end(s, i + 2));
    } else if s[i as int] == '/' && i + 1 < s.len() && s[i + 1int] == '*' {
        lemma_block_comment_end(s, i + 2);
        if let Some(e) = block_comment_end(s, i + 2) {
            lemma_skip_blank(s, e);
        }
    }
}

/// The kind of a token of one character.
pub open spec fn single_char_kind(c: char) -> Option<TokenKind> {
    if c == '{' {
        Some(TokenKind::CurlyBegin)
    } else if c == '}' {
        Some(TokenKind::CurlyEnd)
    } else if c == '(' {
        Some(TokenKind::RoundBegin)
    } else if c == ')' {
        Some(TokenKind::RoundEnd)
    } else if c == '[' {
        Some(TokenKind::SquareBegin)
    } else if c == ']' {
        Some(TokenKind::SquareEnd)
    } else if c == ',' {
        Some(TokenKind::Comma)
    } else if c == ';' {
        Some(TokenKind::SemiColon)
    } else if c == '|' {
        Some(TokenKind::SetUnion)
    } else if c == '^' {
        Some(TokenKind::SetIntersection)
    } else if c == '<' {
        Some(TokenKind::Less)
    } else if c == '@' {
        Some(TokenKind::At)
    } else if c == '!' {
        Some(TokenKind::Exclamation)
    } else {
        None
    }
}

/// The kind and the end of the token that starts at `j`; `None` where no
/// token starts there. Names are read as identifiers here.
pub open spec fn next_token(s: Seq<char>, j: nat) -> Option<(TokenKind, nat)> {
    if j >= s.len() {
        None
    } else {
        let c = s[j as int];
        if c == ':' {
            if j + 2 < s.len() && s[j + 1int] == ':' && s[j + 2int] == '=' {
                Some((TokenKind::Assignment, j + 3))
            } else {
                Some((TokenKind::Colon, j + 1))
            }
        } else if c == '.' {
            if j + 2 < s.len() && s[j + 1int] == '.' && s[j + 2int] == '.' {
                Some((TokenKind::Extension, j + 3))
            } else if j + 1 < s.len() && s[j + 1int] == '.' {
                Some((TokenKind::RangeSeparator, j + 2))
            } else {
                Some((TokenKind::Dot, j + 1))
            }
        } else if single_char_kind(c) is Some {
            Some((single_char_kind(c)->0, j + 1))
        } else if c == '&' {
            if j + 1 < s.len() && is_letter(s[j + 1int]) {
                Some((TokenKind::AndIdentifier, ident_end(s, j + 2)))
            } else {
                None
            }
        } else if is_letter(c) {
            Some((TokenKind::Identifier, ident_end(s, j + 1)))
        } else if is_digit(c) {
            Some((TokenKind::Number, digits_end(s, j + 1)))
        } else if c == '-' && j + 1 < s.len() && is_digit(s[j + 1int]) {
            Some((TokenKind::Number, digits_end(s, j + 2)))
        } else if c == '"' {
            match string_end(s, j + 1) {
                Some(e) => Some((TokenKind::TString, e)),
                None => None,
            }
        } else if c == '\'' {
            match quote_close(s, j + 1) {
                Some(q) => if q + 1 < s.len() && s[q + 1int] == 'B' {
                    Some((TokenKind::BitString, q + 2))
                } else if q + 1 < s.len() && s[q + 1int] == 'H' {
                    Some((TokenKind::HexString, q + 2))
                } else {
                    None
                },
                None => None,
            }
        } else {
            None
        }
    }
}

pub proof fn lemma_next_token(s: Seq<char>, j: nat)
    ensures
        next_token(s, j) matches Some((_, e)) ==> j < e <= s.len(),
{
    if j < s.len() {
        lemma_ident_end(s, j + 1);
        if j + 2 <= s.len() {
            lemma_ident_end(s, j + 2);
        }
        lemma_digits_end(s, j + 1);
        if j + 2 <= s.len() {
            lemma_digits_end(s, j + 2);
        }
        lemma_string_end(s, j + 1);
        lemma_quote_close(s, j + 1);
    }
}

/// A name that is a reserved word is a keyword.
pub open spec fn classify(kind: TokenKind, text: Seq<char>) -> TokenKind {
    if kind == TokenKind::Identifier && is_reserved_word(text) {
        TokenKind::Keyword
    } else {
        kind
    }
}

/// The tokens from `i` on: for each, its kind, where it starts and where it
/// ends.
pub open spec fn lex_from(s: Seq<char>, i: nat) -> Result<Seq<(TokenKind, nat, nat)>, Error>
    decreases s.len() - i,
{
    if i > s.len() {
        Ok(Seq::empty())
    } else {
        match skip_blank(s, i) {
            Err(e) => Err(e),
            Ok(j) => if j >= s.len() {
                Ok(Seq::empty())
            } else {
                match next_token(s, j) {
                    None => Err(Error::Tokenize { offset: j as usize }),
                    Some((k, e)) => {
                        proof {
                            lemma_skip_blank(s, i);
                            lemma_next_token(s, j);
                        }
                        match lex_from(s, e) {
                            Err(x) => Err(x),
                            Ok(rest) => Ok(
                                seq![(classify(k, s.subrange(j as int, e as int)), j, e)] + rest,
                            ),
                        }
                    },
                }
            },
        }
    }
}

/// The tokens of a whole text.
pub open spec fn spec_tokenize(s: Seq<char>) -> Result<Seq<(TokenKind, nat, nat)>, Error> {
    lex_from(s, 0)
}

/// Whether the tokens are those that the spans of `s` describe: the same
/// kinds, and the texts that the spans cover.
pub open spec fn tokens_match(toks: Seq<Token>, spans: Seq<(TokenKind, nat, nat)>, s: Seq<char>) -> bool {
    &&& toks.len() == spans.len()
    &&& forall|i: int|
        0 <= i < toks.len() ==> {
            &&& (#[trigger] toks[i]).kind == spans[i].0
            &&& toks[i].text@ == s.subrange(spans[i].1 as int, spans[i].2 as int)
        }
}

fn ident_end_exec(s: &Vec<char>, i: usize) -> (e: usize)
    requires
        i <= s@.len(),
    ensures
        e == ident_end(s@, i as nat),
{
    let mut p = i;
    while p < s.len() && (is_alnum_exec(s[p]) || (p + 1 < s.len() && s[p] == '-' && is_alnum_exec(
        s[p + 1],
    )))
        invariant
            i <= p <= s@.len(),
            ident_end(s@, p as nat) == ident_end(s@, i as nat),
        decreases s@.len() - p,
    {
        p = p + 1;
    }
    p
}

fn is_alnum_exec(c: char) -> (b: bool)
    ensures
        b == is_alnum(c),
{
    ('A' <= c && c <= 'Z') || ('a' <= c && c <= 'z') || ('0' <= c && c <= '9')
}

fn is_letter_exec(c: char) -> (b: bool)
    ensures
        b == is_letter(c),
{
    ('A' <= c && c <= 'Z') || ('a' <= c && c <= 'z')
}

fn is_digit_exec(c: char) -> (b: bool)
    ensures
        b == is_digit(c),
{
    '0' <= c && c <= '9'
}

fn digits_end_exec(s: &Vec<char>, i: usize) -> (e: usize)
    requires
        i <= s@.len(),
    ensures
        e == digits_end(s@, i as nat),
{
    let mut p = i;
    while p < s.len() && is_digit_exec(s[p])
        invariant
            i <= p <= s@.len(),
            digits_end(s@, p as nat) == digits_end(s@, i as nat),
        decreases s@.len() - p,
    {
        p = p + 1;
    }
    p
}

fn line_comment_end_exec(s: &Vec<char>, i: usize) -> (e: usize)
    requires
        i <= s@.len(),
    ensures
        e == line_comment_end(s@, i as nat),
{
    let mut p = i;
    while p < s.len()
        invariant
            i <= p <= s@.len(),
            line_comment_end(s@, p as nat) == line_comment_end(s@, i as nat),
        decreases s@.len() - p,
    {
        if s[p] == '\n' {
            return p + 1;
        }
        if s[p] == '-' && p + 1 < s.len() && s[p + 1] == '-' {
            return p + 2;
        }
        p = p + 1;
    }
    p
}

fn block_comment_end_exec(s: &Vec<char>, i: usize) -> (r: Option<usize>)
    requires
        i <= s@.len(),
    ensures
        match r {
            Some(e) => block_comment_end(s@, i as nat) == Some(e as nat),
            None => block_comment_end(s@, i as nat) is None,
        },
{
    let mut p = i;
    while p < s.len() && p + 1 < s.len()
        invariant
            i <= p <= s@.len(),
            block_comment_end(s@, p as nat) == block_comment_end(s@, i as nat),
        decreases s@.len() - p,
    {
        if s[p] == '*' && s[p + 1] == '/' {
            return Some(p + 2);
        }
        p = p + 1;
    }
    None
}

fn string_end_exec(s: &Vec<char>, i: usize) -> (r: Option<usize>)
    requires
        i <= s@.len(),
    ensures
        match r {
            Some(e) => string_end(s@, i as nat) == Some(e as nat),
            None => string_end(s@, i as nat) is None,
        },
{
    let mut p = i;
    while p < s.len()
        invariant
            i <= p <= s@.len(),
            string_end(s@, p as nat) == string_end(s@, i as nat),
        decreases s@.len() - p,
    {
        if s[p] == '"' {
            if p + 1 < s.len() && s[p + 1] == '"' {
                p = p + 2;
            } else {
                return Some(p + 1);
            }
        } else {
            p = p + 1;
        }
    }
    None
}

fn quote_close_exec(s: &Vec<char>, i: usize) -> (r: Option<usize>)
    requires
        i <= s@.len(),
    ensures
        match r {
            Some(q) => quote_close(s@, i as nat) == Some(q as nat),
            None => quote_close(s@, i as nat) is None,
        },
{
    let mut p = i;
    while p < s.len()
        invariant
            i <= p <= s@.len(),
            quote_close(s@, p as nat) == quote_close(s@, i as nat),
        decreases s@.len() - p,
    {
        if s[p] == '\'' {
            return Some(p);
        }
        p = p + 1;
    }
    None
}

fn skip_blank_exec(s: &Vec<char>, i: usize) -> (r: Result<usize, Error>)
    requires
        i <= s@.len(),
    ensures
        match r {
            Ok(j) => skip_blank(s@, i as nat) == Ok::<nat, Error>(j as nat),
            Err(e) => skip_blank(s@, i as nat) == Err::<nat, Error>(e),
        },
{
    let mut p = i;
    while p < s.len()
        invariant
            i <= p <= s@.len(),
            skip_blank(s@, p as nat) == skip_blank(s@, i as nat),
        decreases s@.len() - p,
    {
        let c = s[p];
        if c == ' ' || c == '\t' || c == '\n' || c == '\r' {
            p = p + 1;
        } else if c == '-' && p + 1 < s.len() && s[p + 1] == '-' {
            proof {
                lemma_line_comment_end(s@, (p + 2) as nat);
            }
            p = line_comment_end_exec(s, p + 2);
        } else if c == '/' && p + 1 < s.len() && s[p + 1] == '*' {
            proof {
                lemma_block_comment_end(s@, (p + 2) as nat);
            }
            match block_comment_end_exec(s, p + 2) {
                None => {
                    return Err(Error::Tokenize { offset: p });
                },
                Some(e) => {
                    p = e;
                },
            }
        } else {
            return Ok(p);
        }
    }
    Ok(p)
}

fn single_char_kind_exec(c: char) -> (r: Option<TokenKind>)
    ensures
        r == single_char_kind(c),
{
    if c == '{' {
        Some(TokenKind::CurlyBegin)
    } else if c == '}' {
        Some(TokenKind::CurlyEnd)
    } else if c == '(' {
        Some(TokenKind::RoundBegin)
    } else if c == ')' {
        Some(TokenKind::RoundEnd)
    } else if c == '[' {
        Some(TokenKind::SquareBegin)
    } else if c == ']' {
        Some(TokenKind::SquareEnd)
    } else if c == ',' {
        Some(TokenKind::Comma)
    } else if c == ';' {
        Some(TokenKind::SemiColon)
    } else if c == '|' {
        Some(TokenKind::SetUnion)
    } else if c == '^' {
        Some(TokenKind::SetIntersection)
    } else if c == '<' {
        Some(TokenKind::Less)
    } else if c == '@' {
        Some(TokenKind::At)
    } else if c == '!' {
        Some(TokenKind::Exclamation)
    } else {
        None
    }
}

fn next_token_exec(s: &Vec<char>, j: usize) -> (r: Option<(TokenKind, usize)>)
    requires
        j < s@.len(),
    ensures
        match r {
            Some((k, e)) => next_token(s@, j as nat) == Some((k, e as nat)),
            None => next_token(s@, j as nat) is None,
        },
{
    proof {
        lemma_next_token(s@, j as nat);
    }
    let c = s[j];
    let n = s.len();
    if c == ':' {
        if j + 1 < n && j + 2 < n && s[j + 1] == ':' && s[j + 2] == '=' {
            Some((TokenKind::Assignment, j + 3))
        } else {
            Some((TokenKind::Colon, j + 1))
        }
    } else if c == '.' {
        if j + 1 < n && j + 2 < n && s[j + 1] == '.' && s[j + 2] == '.' {
            Some((TokenKind::Extension, j + 3))
        } else if j + 1 < n && s[j + 1] == '.' {
            Some((TokenKind::RangeSeparator, j + 2))
        } else {
            Some((TokenKind::Dot, j + 1))
        }
    } else if let Some(k) = single_char_kind_exec(c) {
        Some((k, j + 1))
    } else if c == '&' {
        if j + 1 < n && is_letter_exec(s[j + 1]) {
            Some((TokenKind::AndIdentifier, ident_end_exec(s, j + 2)))
        } else {
            None
        }
    } else if is_letter_exec(c) {
        Some((TokenKind::Identifier, ident_end_exec(s, j + 1)))
    } else if is_digit_exec(c) {
        Some((TokenKind::Number, digits_end_exec(s, j + 1)))
    } else if c == '-' && j + 1 < n && is_digit_exec(s[j + 1]) {
        Some((TokenKind::Number, digits_end_exec(s, j + 2)))
    } else if c == '"' {
        match string_end_exec(s, j + 1) {
            Some(e) => Some((TokenKind::TString, e)),
            None => None,
        }
    } else if c == '\'' {
        proof {
            lemma_quote_close(s@, (j + 1) as nat);
        }
        match quote_close_exec(s, j + 1) {
            Some(q) => if q + 1 < n && s[q + 1] == 'B' {
                Some((TokenKind::BitString, q + 2))
            } else if q + 1 < n && s[q + 1] == 'H' {
                Some((TokenKind::HexString, q + 2))
            } else {
                None
            },
            None => None,
        }
    } else {
        None
    }
}

/// The string of the characters from `from` up to `to`.
fn string_of(s: &Vec<char>, from: usize, to: usize) -> (r: String)
    requires
        from <= to <= s@.len(),
    ensures
        r@ == s@.subrange(from as int, to as int),
{
    let mut r = String::new();
    let mut p = from;
    while p < to
        invariant
            from <= p <= to <= s@.len(),
            r@ == s@.subrange(from as int, p as int),
        decreases to - p,
    {
        push_char(&mut r, s[p]);
        assert(r@ =~= s@.subrange(from as int, p + 1));
        p = p + 1;
    }
    r
}

/// Cuts `input` into tokens: names, keywords, numbers, strings, `::=`,
/// `...`, `..` and the punctuation of ASN.1, skipping blanks and `--` and
/// `/* */` comments; an error at the offset of the first character where no
/// token can start.
pub fn tokenize(input: &str) -> (r: Result<Vec<Token>, Error>)
    ensures
        match (r, spec_tokenize(input@)) {
            (Ok(toks), Ok(spans)) => tokens_match(toks@, spans, input@),
            (Err(e), Err(f)) => e == f,
            _ => false,
        },
{
    let s = chars_of(input);
    let mut tokens: Vec<Token> = Vec::new();
    let ghost mut spans: Seq<(TokenKind, nat, nat)> = Seq::empty();
    let mut i: usize = 0;
    loop
        invariant
            s@ == input@,
            i <= s@.len(),
            tokens_match(tokens@, spans, s@),
            lex_from(s@, 0) == match lex_from(s@, i as nat) {
                Ok(rest) => Ok(spans + rest),
                Err(e) => Err(e),
            },
        decreases s@.len() - i,
    {
        proof {
            lemma_skip_blank(s@, i as nat);
        }
        let j = skip_blank_exec(&s, i)?;
        if j >= s.len() {
            assert(spans + Seq::<(TokenKind, nat, nat)>::empty() =~= spans);
            return Ok(tokens);
        }
        match next_token_exec(&s, j) {
            None => {
                return Err(Error::Tokenize { offset: j });
            },
            Some((k, e)) => {
                proof {
                    lemma_next_token(s@, j as nat);
                }
                let text = string_of(&s, j, e);
                let kind = if k == TokenKind::Identifier && reserved_word(text.as_str()) {
                    TokenKind::Keyword
                } else {
                    k
                };
                assert(kind == classify(k, s@.subrange(j as int, e as int)));
                let ghost item = (kind, j as nat, e as nat);
                let ghost old_spans = spans;
                proof {
                    if let Ok(rest) = lex_from(s@, e as nat) {
                        assert(old_spans + (seq![item] + rest) =~= old_spans.push(item) + rest);
                    }
                    spans = spans.push(item);
                }
                tokens.push(Token { kind, text });
                i = e;
            },
        }
    }
}

/// A span's kind agrees with its text: a span that starts with a letter is a
/// keyword where its text is a reserved word and an identifier otherwise; no
/// other span is either.
pub open spec fn word_kind_agrees(s: Seq<char>, sp: (TokenKind, nat, nat)) -> bool {
    if is_letter(s[sp.1 as int]) {
        sp.0 == (if is_reserved_word(s.subrange(sp.1 as int, sp.2 as int)) {
            TokenKind::Keyword
        } else {
            TokenKind::Identifier
        })
    } else {
        sp.0 != TokenKind::Identifier && sp.0 != TokenKind::Keyword
    }
}

/// The spans lie in order from `from` to the end of the text, none empty and
/// none overlapping, each of the kind its text calls for.
pub open spec fn spans_placed(s: Seq<char>, spans: Seq<(TokenKind, nat, nat)>, from: nat) -> bool {
    &&& forall|k: int|
        0 <= k < spans.len() ==> from <= (#[trigger] spans[k]).1 < spans[k].2 <= s.len()
    &&& forall|a: int, b: int|
        0 <= a < b < spans.len() ==> (#[trigger] spans[a]).2 <= (#[trigger] spans[b]).1
    &&& forall|k: int| 0 <= k < spans.len() ==> word_kind_agrees(s, #[trigger] spans[k])
}

proof fn lemma_next_token_word(s: Seq<char>, j: nat)
    requires
        j < s.len(),
    ensures
        next_token(s, j) matches Some((k, _)) ==> (k == TokenKind::Identifier <==> is_letter(
            s[j as int],
        )) && k != TokenKind::Keyword,
{
}

proof fn lemma_lex_from_placed(s: Seq<char>, i: nat)
    ensures
        lex_from(s, i) matches Ok(spans) ==> spans_placed(s, spans, i),
    decreases s.len() - i,
{
    if i <= s.len() {
        lemma_skip_blank(s, i);
        if let Ok(j) = skip_blank(s, i) {
            if j < s.len() {
                lemma_next_token(s, j);
                lemma_next_token_word(s, j);
                if let Some((k, e)) = next_token(s, j) {
                    lemma_lex_from_placed(s, e);
                    if let Ok(rest) = lex_from(s, e) {
                        let x = (classify(k, s.subrange(j as int, e as int)), j, e);
                        let spans = seq![x] + rest;
                        assert(spans[0] == x);
                        assert forall|m: int| 0 <= m < rest.len() implies spans[m + 1] == rest[m] by {}
                        assert forall|k2: int| 0 <= k2 < spans.len() implies i <= (
                            #[trigger] spans[k2]).1 < spans[k2].2 <= s.len() by {
                            if k2 > 0 {
                                assert(spans[k2] == rest[k2 - 1]);
                            }
                        }
                        assert forall|a: int, b: int| 0 <= a < b < spans.len() implies (
                            #[trigger] spans[a]).2 <= (#[trigger] spans[b]).1 by {
                            assert(spans[b] == rest[b - 1]);
                            if a > 0 {
                                assert(spans[a] == rest[a - 1]);
                            }
                        }
                        assert forall|k2: int| 0 <= k2 < spans.len() implies word_kind_agrees(
                            s,
                            #[trigger] spans[k2],
                        ) by {
                            if k2 > 0 {
                                assert(spans[k2] == rest[k2 - 1]);
                            }
                        }
                    }
                }
            }
        }
    }
}

/// The tokens of a text lie in order, none empty and none overlapping, and a
/// name is a keyword exactly when it is a reserved word: every other token
/// that starts with a letter is an identifier, and no token that starts
/// otherwise is either.
pub proof fn law_tokens_placed(s: Seq<char>)
    ensures
        spec_tokenize(s) matches Ok(spans) ==> spans_placed(s, spans, 0),
{
    lemma_lex_from_placed(s, 0);
}

/// The reserved words of ASN.1 (X.680) that are written in capitals only.
pub open spec fn asn1_reserved_word(t: Seq<char>) -> bool {
    ||| t == "ABSENT"@
    ||| t == "ALL"@
    ||| t == "APPLICATION"@
    ||| t == "AUTOMATIC"@
    ||| t == "BEGIN"@
    ||| t == "BIT"@
    ||| t == "BOOLEAN"@
    ||| t == "BY"@
    ||| t == "CHARACTER"@
    ||| t == "CHOICE"@
    ||| t == "CLASS"@
    ||| t == "COMPONENT"@
    ||| t == "COMPONENTS"@
    ||| t == "CONSTRAINED"@
    ||| t == "CONTAINING"@
    ||| t == "DATE"@
    ||| t == "DATE-TIME"@
    ||| t == "DEFAULT"@
    ||| t == "DEFINITIONS"@
    ||| t == "DURATION"@
    ||| t == "EMBEDDED"@
    ||| t == "ENCODED"@
    ||| t == "ENCODING-CONTROL"@
    ||| t == "END"@
    ||| t == "ENUMERATED"@
    ||| t == "EXCEPT"@
    ||| t == "EXPLICIT"@
    ||| t == "EXPORTS"@
    ||| t == "EXTENSIBILITY"@
    ||| t == "EXTERNAL"@
    ||| t == "FALSE"@
    ||| t == "FROM"@
    ||| t == "IDENTIFIER"@
    ||| t == "IMPLICIT"@
    ||| t == "IMPLIED"@
    ||| t == "IMPORTS"@
    ||| t == "INCLUDES"@
    ||| t == "INSTANCE"@
    ||| t == "INSTRUCTIONS"@
    ||| t == "INTEGER"@
    ||| t == "INTERSECTION"@
    ||| t == "MAX"@
    ||| t == "MIN"@
    ||| t == "MINUS-INFINITY"@
    ||| t == "NOT-A-NUMBER"@
    ||| t == "NULL"@
    ||| t == "OBJECT"@
    ||| t == "OCTET"@
    ||| t == "OF"@
    ||| t == "OID-IRI"@
    ||| t == "OPTIONAL"@
    ||| t == "PATTERN"@
    ||| t == "PDV"@
    ||| t == "PLUS-INFINITY"@
    ||| t == "PRESENT"@
    ||| t == "PRIVATE"@
    ||| t == "REAL"@
    ||| t == "RELATIVE-OID"@
    ||| t == "RELATIVE-OID-IRI"@
    ||| t == "SEQUENCE"@
    ||| t == "SET"@
    ||| t == "SETTINGS"@
    ||| t == "SIZE"@
    ||| t == "STRING"@
    ||| t == "SYNTAX"@
    ||| t == "TAGS"@
    ||| t == "TIME"@
    ||| t == "TIME-OF-DAY"@
    ||| t == "TRUE"@
    ||| t == "UNION"@
    ||| t == "UNIQUE"@
    ||| t == "UNIVERSAL"@
    ||| t == "WITH"@
}

/// Every reserved word of ASN.1 is read as a keyword: in any text that
/// tokenizes, a token whose text is a reserved word (such as `DEFAULT` or
/// `OPTIONAL`) is of kind `Keyword`.
pub proof fn law_reserved_words_are_keywords(s: Seq<char>)
    ensures
        spec_tokenize(s) matches Ok(spans) ==> forall|k: int|
            0 <= k < spans.len() && asn1_reserved_word(
                s.subrange((#[trigger] spans[k]).1 as int, spans[k].2 as int),
            ) ==> spans[k].0 == TokenKind::Keyword,
{
    law_tokens_placed(s);
    if let Ok(spans) = spec_tokenize(s) {
        assert forall|k: int|
            0 <= k < spans.len() && asn1_reserved_word(
                s.subrange((#[trigger] spans[k]).1 as int, spans[k].2 as int),
            ) implies spans[k].0 == TokenKind::Keyword by {
            let t = s.subrange(spans[k].1 as int, spans[k].2 as int);
            assert(word_kind_agrees(s, spans[k]));
        reveal_strlit("ABSENT");
        reveal_strlit("ALL");
        reveal_strlit("APPLICATION");
        reveal_strlit("AUTOMATIC");
        reveal_strlit("BEGIN");
        reveal_strlit("BIT");
        reveal_strlit("BOOLEAN");
        reveal_strlit("BY");
        reveal_strlit("CHARACTER");
        reveal_strlit("CHOICE");
        reveal_strlit("CLASS");
        reveal_strlit("COMPONENT");
        reveal_strlit("COMPONENTS");
        reveal_strlit("CONSTRAINED");
        reveal_strlit("CONTAINING");
        reveal_strlit("DATE");
        reveal_strlit("DATE-TIME");
        reveal_strlit("DEFAULT");
        reveal_strlit("DEFINITIONS");
        reveal_strlit("DURATION");
        reveal_strlit("EMBEDDED");
        reveal_strlit("ENCODED");
        reveal_strlit("ENCODING-CONTROL");
        reveal_strlit("END");
        reveal_strlit("ENUMERATED");
        reveal_strlit("EXCEPT");
        reveal_strlit("EXPLICIT");
        reveal_strlit("EXPORTS");
        reveal_strlit("EXTENSIBILITY");
        reveal_strlit("EXTERNAL");
        reveal_strlit("FALSE");
        reveal_strlit("FROM");
        reveal_strlit("IDENTIFIER");
        reveal_strlit("IMPLICIT");
        reveal_strlit("IMPLIED");
        reveal_strlit("IMPORTS");
        reveal_strlit("INCLUDES");
        reveal_strlit("INSTANCE");
        reveal_strlit("INSTRUCTIONS");
        reveal_strlit("INTEGER");
        reveal_strlit("INTERSECTION");
        reveal_strlit("MAX");
        reveal_strlit("MIN");
        reveal_strlit("MINUS-INFINITY");
        reveal_strlit("NOT-A-NUMBER");
        reveal_strlit("NULL");
        reveal_strlit("OBJECT");
        reveal_strlit("OCTET");
        reveal_strlit("OF");
        reveal_strlit("OID-IRI");
        reveal_strlit("OPTIONAL");
        reveal_strlit("PATTERN");
        reveal_strlit("PDV");
        reveal_strlit("PLUS-INFINITY");
        reveal_strlit("PRESENT");
        reveal_strlit("PRIVATE");
        reveal_strlit("REAL");
        reveal_strlit("RELATIVE-OID");
        reveal_strlit("RELATIVE-OID-IRI");
        reveal_strlit("SEQUENCE");
        reveal_strlit("SET");
        reveal_strlit("SETTINGS");
        reveal_strlit("SIZE");
        reveal_strlit("STRING");
        reveal_strlit("SYNTAX");
        reveal_strlit("TAGS");
        reveal_strlit("TIME");
        reveal_strlit("TIME-OF-DAY");
        reveal_strlit("TRUE");
        reveal_strlit("UNION");
        reveal_strlit("UNIQUE");
        reveal_strlit("UNIVERSAL");
        reveal_strlit("WITH");
            assert(t[0] == s[spans[k].1 as int]);
            assert(is_upper(t[0]));
            assert(is_reserved_word(t));
        }
    }
}

} // verus!
