//! Tokens of an ASN.1 module and the classifications the parser asks of them.
use vstd::prelude::*;
use vstd::string::*;

verus! {

/// The lexical category of a token.
#[derive(Clone, Copy, Debug, PartialEq, Eq, Structural)]
pub enum TokenKind {
    Identifier,
    Keyword,
    AndIdentifier,
    Number,
    TString,
    BitString,
    HexString,
    CurlyBegin,
    CurlyEnd,
    RoundBegin,
    RoundEnd,
    SquareBegin,
    SquareEnd,
    Assignment,
    Extension,
    RangeSeparator,
    Dot,
    Comma,
    Colon,
    SemiColon,
    SetUnion,
    SetIntersection,
    Less,
    At,
    Exclamation,
}

/// One token: its category and the exact text it was read from.
#[derive(Debug, PartialEq, Eq)]
pub struct Token {
    pub kind: TokenKind,
    pub text: String,
}

impl Clone for Token {
    fn clone(&self) -> (res: Self)
        ensures
            res == *self,
    {
        Token { kind: self.kind, text: self.text.clone() }
    }
}

pub open spec fn is_upper(c: char) -> bool {
    'A' <= c && c <= 'Z'
}

pub open spec fn is_lower(c: char) -> bool {
    'a' <= c && c <= 'z'
}

pub open spec fn is_digit(c: char) -> bool {
    '0' <= c && c <= '9'
}

/// Characters allowed in an information object class reference.
pub open spec fn is_class_ref_char(c: char) -> bool {
    is_upper(c) || is_digit(c) || c == '-'
}

/// Whether two strings hold the same characters.
pub fn text_is(s: &str, lit: &str) -> (b: bool)
    ensures
        b == (s@ == lit@),
{
    let n = s.unicode_len();
    let m = lit.unicode_len();
    if n != m {
        return false;
    }
    let mut i: usize = 0;
    while i < n
        invariant
            n == s@.len(),
            m == lit@.len(),
            n == m,
            i <= n,
            forall|j: int| 0 <= j < i ==> s@[j] == lit@[j],
        decreases n - i,
    {
        if s.get_char(i) != lit.get_char(i) {
            return false;
        }
        i = i + 1;
    }
    assert(s@ =~= lit@);
    true
}

/// The keywords that start a built-in ASN.1 type.
pub open spec fn is_builtin_type_word(t: Seq<char>) -> bool {
    ||| t == "BIT"@
    ||| t == "BOOLEAN"@
    ||| t == "CHARACTER"@
    ||| t == "CHOICE"@
    ||| t == "DATE"@
    ||| t == "DATE-TIME"@
    ||| t == "DURATION"@
    ||| t == "EMBEDDED"@
    ||| t == "ENUMERATED"@
    ||| t == "EXTERNAL"@
    ||| t == "INSTANCE"@
    ||| t == "INTEGER"@
    ||| t == "NULL"@
    ||| t == "OBJECT"@
    ||| t == "OCTET"@
    ||| t == "REAL"@
    ||| t == "RELATIVE-OID"@
    ||| t == "SEQUENCE"@
    ||| t == "SET"@
    ||| t == "TIME"@
    ||| t == "TIME-OF-DAY"@
}

fn builtin_type_word(t: &str) -> (b: bool)
    ensures
        b == is_builtin_type_word(t@),
{
    text_is(t, "BIT") || text_is(t, "BOOLEAN") || text_is(t, "CHARACTER") || text_is(t, "CHOICE")
        || text_is(t, "DATE") || text_is(t, "DATE-TIME") || text_is(t, "DURATION") || text_is(
        t,
        "EMBEDDED",
    ) || text_is(t, "ENUMERATED") || text_is(t, "EXTERNAL") || text_is(t, "INSTANCE") || text_is(
        t,
        "INTEGER",
    ) || text_is(t, "NULL") || text_is(t, "OBJECT") || text_is(t, "OCTET") || text_is(t, "REAL")
        || text_is(t, "RELATIVE-OID") || text_is(t, "SEQUENCE") || text_is(t, "SET") || text_is(
        t,
        "TIME",
    ) || text_is(t, "TIME-OF-DAY")
}

impl Token {
    pub open spec fn spec_is_value_reference(&self) -> bool {
        &&& self.kind == TokenKind::Identifier
        &&& self.text@.len() > 0
        &&& is_lower(self.text@[0])
    }

    pub open spec fn spec_is_type_reference(&self) -> bool {
        &&& self.kind == TokenKind::Identifier
        &&& self.text@.len() > 0
        &&& is_upper(self.text@[0])
    }

    pub open spec fn spec_is_object_class_reference(&self) -> bool {
        &&& self.spec_is_type_reference()
        &&& forall|i: int| 0 <= i < self.text@.len() ==> is_class_ref_char(#[trigger] self.text@[i])
    }

    pub open spec fn spec_is_asn_builtin_type(&self) -> bool {
        self.kind == TokenKind::Keyword && is_builtin_type_word(self.text@)
    }

    pub open spec fn spec_is_given_keyword(&self, kw: &str) -> bool {
        self.kind == TokenKind::Keyword && self.text@ == kw@
    }

    pub open spec fn spec_is_set_union(&self) -> bool {
        self.kind == TokenKind::SetUnion || (self.kind == TokenKind::Keyword && self.text@
            == "UNION"@)
    }

    /// A reference to a value: an identifier starting with a lower-case letter.
    #[verifier::when_used_as_spec(spec_is_value_reference)]
    pub fn is_value_reference(&self) -> (b: bool)
        ensures
            b == self.spec_is_value_reference(),
    {
        if self.kind != TokenKind::Identifier {
            return false;
        }
        let s = self.text.as_str();
        if s.unicode_len() == 0 {
            return false;
        }
        let c = s.get_char(0);
        'a' <= c && c <= 'z'
    }

    /// A reference to a type: an identifier starting with an upper-case letter.
    #[verifier::when_used_as_spec(spec_is_type_reference)]
    pub fn is_type_reference(&self) -> (b: bool)
        ensures
            b == self.spec_is_type_reference(),
    {
        if self.kind != TokenKind::Identifier {
            return false;
        }
        let s = self.text.as_str();
        if s.unicode_len() == 0 {
            return false;
        }
        let c = s.get_char(0);
        'A' <= c && c <= 'Z'
    }

    /// A reference to an information object class: a type reference made
    /// only of upper-case letters, digits and hyphens.
    #[verifier::when_used_as_spec(spec_is_object_class_reference)]
    pub fn is_object_class_reference(&self) -> (b: bool)
        ensures
            b == self.spec_is_object_class_reference(),
    {
        if !self.is_type_reference() {
            return false;
        }
        let s = self.text.as_str();
        let n = s.unicode_len();
        let mut i: usize = 0;
        while i < n
            invariant
                n == s@.len(),
                s@ == self.text@,
                i <= n,
                forall|j: int| 0 <= j < i ==> is_class_ref_char(#[trigger] s@[j]),
            decreases n - i,
        {
            let c = s.get_char(i);
            if !(('A' <= c && c <= 'Z') || ('0' <= c && c <= '9') || c == '-') {
                assert(!is_class_ref_char(s@[i as int]));
                return false;
            }
            i = i + 1;
        }
        true
    }

    /// A reference to an information object: written like a value reference.
    pub open spec fn spec_is_object_reference(&self) -> bool {
        self.spec_is_value_reference()
    }

    #[verifier::when_used_as_spec(spec_is_object_reference)]
    pub fn is_object_reference(&self) -> (b: bool)
        ensures
            b == self.spec_is_object_reference(),
    {
        self.is_value_reference()
    }

    /// A reference to an information object set: written like a type reference.
    pub open spec fn spec_is_object_set_reference(&self) -> bool {
        self.spec_is_type_reference()
    }

    #[verifier::when_used_as_spec(spec_is_object_set_reference)]
    pub fn is_object_set_reference(&self) -> (b: bool)
        ensures
            b == self.spec_is_object_set_reference(),
    {
        self.is_type_reference()
    }

    /// A keyword that starts a built-in type.
    #[verifier::when_used_as_spec(spec_is_asn_builtin_type)]
    pub fn is_asn_builtin_type(&self) -> (b: bool)
        ensures
            b == self.spec_is_asn_builtin_type(),
    {
        self.kind == TokenKind::Keyword && builtin_type_word(self.text.as_str())
    }

    /// The keyword `kw`.
    #[verifier::when_used_as_spec(spec_is_given_keyword)]
    pub fn is_given_keyword(&self, kw: &str) -> (b: bool)
        ensures
            b == self.spec_is_given_keyword(kw),
    {
        self.kind == TokenKind::Keyword && text_is(self.text.as_str(), kw)
    }

    /// `|` or the keyword `UNION`.
    #[verifier::when_used_as_spec(spec_is_set_union)]
    pub fn is_set_union(&self) -> (b: bool)
        ensures
            b == self.spec_is_set_union(),
    {
        self.kind == TokenKind::SetUnion || (self.kind == TokenKind::Keyword && text_is(
            self.text.as_str(),
            "UNION",
        ))
    }

    pub open spec fn spec_is_assignment(&self) -> bool {
        self.kind == TokenKind::Assignment
    }

    /// `::=`
    #[verifier::when_used_as_spec(spec_is_assignment)]
    pub fn is_assignment(&self) -> (b: bool)
        ensures
            b == self.spec_is_assignment(),
    {
        self.kind == TokenKind::Assignment
    }

    pub open spec fn spec_is_curly_begin(&self) -> bool {
        self.kind == TokenKind::CurlyBegin
    }

    /// `{`
    #[verifier::when_used_as_spec(spec_is_curly_begin)]
    pub fn is_curly_begin(&self) -> (b: bool)
        ensures
            b == self.spec_is_curly_begin(),
    {
        self.kind == TokenKind::CurlyBegin
    }

    pub open spec fn spec_is_curly_end(&self) -> bool {
        self.kind == TokenKind::CurlyEnd
    }

    /// `}`
    #[verifier::when_used_as_spec(spec_is_curly_end)]
    pub fn is_curly_end(&self) -> (b: bool)
        ensures
            b == self.spec_is_curly_end(),
    {
        self.kind == TokenKind::CurlyEnd
    }

    pub open spec fn spec_is_round_begin(&self) -> bool {
        self.kind == TokenKind::RoundBegin
    }

    /// `(`
    #[verifier::when_used_as_spec(spec_is_round_begin)]
    pub fn is_round_begin(&self) -> (b: bool)
        ensures
            b == self.spec_is_round_begin(),
    {
        self.kind == TokenKind::RoundBegin
    }

    pub open spec fn spec_is_round_end(&self) -> bool {
        self.kind == TokenKind::RoundEnd
    }

    /// `)`
    #[verifier::when_used_as_spec(spec_is_round_end)]
    pub fn is_round_end(&self) -> (b: bool)
        ensures
            b == self.spec_is_round_end(),
    {
        self.kind == TokenKind::RoundEnd
    }

    pub open spec fn spec_is_comma(&self) -> bool {
        self.kind == TokenKind::Comma
    }

    /// `,`
    #[verifier::when_used_as_spec(spec_is_comma)]
    pub fn is_comma(&self) -> (b: bool)
        ensures
            b == self.spec_is_comma(),
    {
        self.kind == TokenKind::Comma
    }

    pub open spec fn spec_is_colon(&self) -> bool {
        self.kind == TokenKind::Colon
    }

    /// `:`
    #[verifier::when_used_as_spec(spec_is_colon)]
    pub fn is_colon(&self) -> (b: bool)
        ensures
            b == self.spec_is_colon(),
    {
        self.kind == TokenKind::Colon
    }

    pub open spec fn spec_is_extension(&self) -> bool {
        self.kind == TokenKind::Extension
    }

    /// `...`
    #[verifier::when_used_as_spec(spec_is_extension)]
    pub fn is_extension(&self) -> (b: bool)
        ensures
            b == self.spec_is_extension(),
    {
        self.kind == TokenKind::Extension
    }

    pub open spec fn spec_is_dot(&self) -> bool {
        self.kind == TokenKind::Dot
    }

    /// `.`
    #[verifier::when_used_as_spec(spec_is_dot)]
    pub fn is_dot(&self) -> (b: bool)
        ensures
            b == self.spec_is_dot(),
    {
        self.kind == TokenKind::Dot
    }

    pub open spec fn spec_is_and_identifier(&self) -> bool {
        self.kind == TokenKind::AndIdentifier
    }

    /// A field name of a class: `&` followed by an identifier.
    #[verifier::when_used_as_spec(spec_is_and_identifier)]
    pub fn is_and_identifier(&self) -> (b: bool)
        ensures
            b == self.spec_is_and_identifier(),
    {
        self.kind == TokenKind::AndIdentifier
    }
}

} // verus!
