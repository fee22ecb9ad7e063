use asn1_compiler::error::Error;
use asn1_compiler::lexer::{chars_of, tokenize};
use asn1_compiler::token::{Token, TokenKind};

fn kinds_and_texts(input: &str) -> Vec<(TokenKind, String)> {
    tokenize(input).unwrap().into_iter().map(|t| (t.kind, t.text)).collect()
}

#[test]
fn tokenize_assignment_and_punctuation() {
    let got = kinds_and_texts("Foo ::= SEQUENCE { a INTEGER (0..10), ... }");
    let want = vec![
        (TokenKind::Identifier, "Foo"),
        (TokenKind::Assignment, "::="),
        (TokenKind::Keyword, "SEQUENCE"),
        (TokenKind::CurlyBegin, "{"),
        (TokenKind::Identifier, "a"),
        (TokenKind::Keyword, "INTEGER"),
        (TokenKind::RoundBegin, "("),
        (TokenKind::Number, "0"),
        (TokenKind::RangeSeparator, ".."),
        (TokenKind::Number, "10"),
        (TokenKind::RoundEnd, ")"),
        (TokenKind::Comma, ","),
        (TokenKind::Extension, "..."),
        (TokenKind::CurlyEnd, "}"),
    ];
    let want: Vec<(TokenKind, String)> = want.into_iter().map(|(k, t)| (k, t.to_string())).collect();
    assert_eq!(got, want);
}

#[test]
fn tokenize_skips_comments() {
    let got = kinds_and_texts("a -- a comment\nb -- inline -- c /* block\n comment */ d");
    let texts: Vec<String> = got.into_iter().map(|(_, t)| t).collect();
    assert_eq!(texts, vec!["a", "b", "c", "d"]);
}

#[test]
fn tokenize_names_with_hyphens() {
    let got = kinds_and_texts("maxROHC-ContextSessions id-x--comment\nnext y");
    let texts: Vec<String> = got.into_iter().map(|(_, t)| t).collect();
    assert_eq!(texts, vec!["maxROHC-ContextSessions", "id-x", "next", "y"]);
    // A hyphen that ends a name is no part of it, and starts no token.
    assert_eq!(tokenize("next- y"), Err(Error::Tokenize { offset: 4 }));
}

#[test]
fn tokenize_keywords_are_reserved_words_only() {
    let got = kinds_and_texts("CLASS Class CLASSES WITH SYNTAX TYPE-IDENTIFIER");
    let kinds: Vec<TokenKind> = got.into_iter().map(|(k, _)| k).collect();
    assert_eq!(
        kinds,
        vec![
            TokenKind::Keyword,
            TokenKind::Identifier,
            TokenKind::Identifier,
            TokenKind::Keyword,
            TokenKind::Keyword,
            TokenKind::Identifier,
        ]
    );
}

#[test]
fn tokenize_literals() {
    let got = kinds_and_texts("\"say \"\"hi\"\"\" '0101'B 'FF'H -12 &id @ ! ^ | < ; [ ]");
    let want = vec![
        (TokenKind::TString, "\"say \"\"hi\"\"\""),
        (TokenKind::BitString, "'0101'B"),
        (TokenKind::HexString, "'FF'H"),
        (TokenKind::Number, "-12"),
        (TokenKind::AndIdentifier, "&id"),
        (TokenKind::At, "@"),
        (TokenKind::Exclamation, "!"),
        (TokenKind::SetIntersection, "^"),
        (TokenKind::SetUnion, "|"),
        (TokenKind::Less, "<"),
        (TokenKind::SemiColon, ";"),
        (TokenKind::SquareBegin, "["),
        (TokenKind::SquareEnd, "]"),
    ];
    let want: Vec<(TokenKind, String)> = want.into_iter().map(|(k, t)| (k, t.to_string())).collect();
    assert_eq!(got, want);
}

#[test]
fn tokenize_reports_offset_of_bad_character() {
    assert_eq!(tokenize("a b $ c"), Err(Error::Tokenize { offset: 4 }));
    assert_eq!(tokenize("x /* never closed"), Err(Error::Tokenize { offset: 2 }));
    assert_eq!(tokenize("\"open"), Err(Error::Tokenize { offset: 0 }));
    assert_eq!(tokenize("'01'X"), Err(Error::Tokenize { offset: 0 }));
}

#[test]
fn tokenize_empty_and_blank_input() {
    assert_eq!(tokenize(""), Ok(vec![]));
    assert_eq!(tokenize("  \n\t -- only a comment"), Ok(vec![]));
}

#[test]
fn tokens_lie_in_order_and_words_are_classified() {
    // Every token is a non-empty piece of the input, in order; a name is a
    // keyword exactly when it is a reserved word.
    let input = "Foo-Bar ::= SET OF INTEGER -- c\n x CHOICE";
    let toks = tokenize(input).unwrap();
    let mut rest = input;
    for t in &toks {
        assert!(!t.text.is_empty());
        let at = rest.find(t.text.as_str()).unwrap();
        rest = &rest[at + t.text.len()..];
    }
    let kinds: Vec<TokenKind> = toks.iter().map(|t| t.kind).collect();
    assert_eq!(
        kinds,
        vec![
            TokenKind::Identifier,
            TokenKind::Assignment,
            TokenKind::Keyword,
            TokenKind::Keyword,
            TokenKind::Keyword,
            TokenKind::Identifier,
            TokenKind::Keyword,
        ]
    );
}

#[test]
fn chars_of_gives_characters() {
    assert_eq!(chars_of("aé{"), vec!['a', 'é', '{']);
}

#[test]
fn token_classifications() {
    let t = |kind: TokenKind, text: &str| Token { kind, text: text.to_string() };
    assert!(t(TokenKind::Identifier, "value").is_value_reference());
    assert!(!t(TokenKind::Identifier, "value").is_type_reference());
    assert!(t(TokenKind::Identifier, "Type").is_type_reference());
    assert!(!t(TokenKind::Identifier, "Type").is_object_class_reference());
    assert!(t(TokenKind::Identifier, "MY-CLASS-1").is_object_class_reference());
    assert!(t(TokenKind::Identifier, "MY-CLASS-1").is_object_set_reference());
    assert!(t(TokenKind::Identifier, "obj").is_object_reference());
    assert!(!t(TokenKind::Keyword, "value").is_value_reference());
    assert!(t(TokenKind::Keyword, "INTEGER").is_asn_builtin_type());
    assert!(!t(TokenKind::Keyword, "OF").is_asn_builtin_type());
    assert!(t(TokenKind::Keyword, "CLASS").is_given_keyword("CLASS"));
    assert!(!t(TokenKind::Identifier, "CLASS").is_given_keyword("CLASS"));
    assert!(t(TokenKind::Keyword, "UNION").is_set_union());
    assert!(t(TokenKind::SetUnion, "|").is_set_union());
    assert!(!t(TokenKind::Identifier, "").is_type_reference());
}
