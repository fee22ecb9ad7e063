use asn1_compiler::error::{Error, Expected};
use asn1_compiler::lexer::tokenize;
use asn1_compiler::parser::defs::{
    parse_class_definition, parse_definition, parse_object_set_definition, parse_params,
    parse_type_definition, parse_typeish_definition, parse_valueish_definition,
};
use asn1_compiler::parser::ioc::parse_class;
use asn1_compiler::parser::types::parse_type;
use asn1_compiler::parser::utils::{
    expect_keyword, expect_one_of_tokens, expect_token, expect_tokens, parse_set_ish_value,
    TokenClass,
};
use asn1_compiler::parser::values::parse_value;
use asn1_compiler::structs::{
    Asn1AssignmentKind, DefinitionParam, DummyReferenceKind, GovernerKind, ParamDummyReference,
    ParamGoverner,
};
use asn1_compiler::token::Token;

fn toks(input: &str) -> Vec<Token> {
    tokenize(input).unwrap()
}

fn strings(v: &[&str]) -> Vec<String> {
    v.iter().map(|s| s.to_string()).collect()
}

#[test]
fn value_definition() {
    let t = toks("maxCells INTEGER ::= 32 next");
    let (def, n) = parse_definition(&t).unwrap();
    assert_eq!(n, 4);
    assert!(def.params.is_none());
    match def.kind {
        Asn1AssignmentKind::Value(v) => {
            assert_eq!(v.id, "maxCells");
            assert_eq!(v.typeref.tokens, strings(&["INTEGER"]));
            assert_eq!(v.value, "32");
        }
        _ => panic!("not a value assignment"),
    }
}

#[test]
fn object_definition_with_braced_value() {
    let t = toks("obj MY-CLASS ::= { &id 1, &Type INTEGER }");
    let (def, n) = parse_valueish_definition(&t).unwrap();
    assert_eq!(n, t.len());
    match def.kind {
        Asn1AssignmentKind::Value(v) => {
            assert_eq!(v.id, "obj");
            assert_eq!(v.typeref.tokens, strings(&["MY-CLASS"]));
            assert_eq!(v.value, "{ &id 1 , &Type INTEGER }");
        }
        _ => panic!("not a value assignment"),
    }
}

#[test]
fn value_definition_errors() {
    let t = toks("Foo INTEGER ::= 1");
    assert_eq!(
        parse_valueish_definition(&t),
        Err(Error::UnexpectedToken { expected: Expected::ValueReference, found: t[0].clone() })
    );
    let t = toks("foo INTEGER 1");
    assert_eq!(
        parse_valueish_definition(&t),
        Err(Error::UnexpectedToken { expected: Expected::Assignment, found: t[2].clone() })
    );
    let t = toks("foo INTEGER ::=");
    assert_eq!(parse_valueish_definition(&t), Err(Error::UnexpectedEndOfTokens));
    let t = toks("foo ::= 1");
    assert_eq!(
        parse_valueish_definition(&t),
        Err(Error::UnexpectedToken { expected: Expected::Type, found: t[1].clone() })
    );
    let t = toks("foo INTEGER ::= ::=");
    assert_eq!(
        parse_valueish_definition(&t),
        Err(Error::UnexpectedToken { expected: Expected::Value, found: t[3].clone() })
    );
}

#[test]
fn parameterized_type_definition() {
    let t = toks("Container {IEsSetParam, INTEGER:maxV, F1AP-PROTOCOL-IES:IEs, ValT:Vals, MY-CLASS:obj} ::= SEQUENCE (SIZE (1..maxV)) OF Item");
    let (def, n) = parse_definition(&t).unwrap();
    assert_eq!(n, t.len());
    let params = def.params.unwrap();
    let want = vec![
        DefinitionParam {
            governer: None,
            dummyref: ParamDummyReference { name: "IEsSetParam".to_string(), kind: DummyReferenceKind::Type },
        },
        DefinitionParam {
            governer: Some(ParamGoverner { name: "INTEGER".to_string(), kind: GovernerKind::Type }),
            dummyref: ParamDummyReference { name: "maxV".to_string(), kind: DummyReferenceKind::Value },
        },
        DefinitionParam {
            governer: Some(ParamGoverner { name: "F1AP-PROTOCOL-IES".to_string(), kind: GovernerKind::Class }),
            dummyref: ParamDummyReference { name: "IEs".to_string(), kind: DummyReferenceKind::ObjectSet },
        },
        DefinitionParam {
            governer: Some(ParamGoverner { name: "ValT".to_string(), kind: GovernerKind::Type }),
            dummyref: ParamDummyReference { name: "Vals".to_string(), kind: DummyReferenceKind::ValueSet },
        },
        DefinitionParam {
            governer: Some(ParamGoverner { name: "MY-CLASS".to_string(), kind: GovernerKind::Class }),
            dummyref: ParamDummyReference { name: "obj".to_string(), kind: DummyReferenceKind::Object },
        },
    ];
    assert_eq!(params, want);
    match def.kind {
        Asn1AssignmentKind::Type(a) => {
            assert_eq!(a.id, "Container");
            assert_eq!(a.typeref.tokens.len(), t.len() - 21);
            assert_eq!(a.typeref.tokens[0], "SEQUENCE");
            assert_eq!(a.typeref.tokens.last().unwrap(), "Item");
        }
        _ => panic!("not a type assignment"),
    }
}

#[test]
fn params_errors() {
    let t = toks("{ ::= } x y");
    assert_eq!(parse_params(&t), Err(Error::ParamsFailed { at: t[1].clone() }));
    let t = toks("{ A }");
    // Fewer than three tokens after the brace: the governed form cannot be checked.
    assert_eq!(parse_params(&t), Err(Error::UnexpectedEndOfTokens));
    let t = toks("{ A } ::=");
    let (ps, n) = parse_params(&t).unwrap();
    assert_eq!(n, 3);
    assert_eq!(ps.len(), 1);
    let t = toks("A");
    assert_eq!(
        parse_params(&t),
        Err(Error::UnexpectedToken { expected: Expected::CurlyBegin, found: t[0].clone() })
    );
}

#[test]
fn type_definition_without_params_and_errors() {
    let t = toks("Foo ::= BIT STRING { a(0), b(1) } (SIZE(2))");
    let (def, n) = parse_type_definition(&t).unwrap();
    assert_eq!(n, t.len());
    assert!(def.params.is_none());
    let t = toks("Foo BAR");
    assert_eq!(
        parse_type_definition(&t),
        Err(Error::UnexpectedToken { expected: Expected::Assignment, found: t[1].clone() })
    );
    let t = toks("foo ::= INTEGER");
    assert_eq!(
        parse_type_definition(&t),
        Err(Error::UnexpectedToken { expected: Expected::TypeReference, found: t[0].clone() })
    );
}

#[test]
fn class_definition() {
    let t = toks("MY-CLASS ::= CLASS { &id INTEGER UNIQUE, &Value } WITH SYNTAX { ID &id TYPE &Value }");
    let (def, n) = parse_definition(&t).unwrap();
    assert_eq!(n, t.len());
    match def.kind {
        Asn1AssignmentKind::Class(c) => {
            assert_eq!(c.id, "MY-CLASS");
            assert_eq!(c.classref.fields, strings(&["{", "&id", "INTEGER", "UNIQUE", ",", "&Value", "}"]));
            assert_eq!(
                c.classref.syntax,
                Some(strings(&["{", "ID", "&id", "TYPE", "&Value", "}"]))
            );
        }
        _ => panic!("not a class assignment"),
    }
    let t = toks("MY-CLASS ::= CLASS { &id INTEGER } WITH");
    let (def, n) = parse_class_definition(&t).unwrap();
    assert_eq!(n, t.len() - 1);
    match def.kind {
        Asn1AssignmentKind::Class(c) => assert_eq!(c.classref.syntax, None),
        _ => panic!("not a class assignment"),
    }
    let t = toks("MY-CLASS ::= SEQUENCE { }");
    assert_eq!(
        parse_class_definition(&t),
        Err(Error::UnexpectedToken { expected: Expected::ClassKeyword, found: t[2].clone() })
    );
    let t = toks("My-Class ::= CLASS { }");
    assert_eq!(
        parse_class_definition(&t),
        Err(Error::UnexpectedToken { expected: Expected::ClassReference, found: t[0].clone() })
    );
}

#[test]
fn object_set_definition() {
    let t = toks("IEs F1AP-PROTOCOL-IES ::= { { ID id-a TYPE A } | { ID id-b TYPE B }, ..., OtherSet }");
    let (def, n) = parse_definition(&t).unwrap();
    assert_eq!(n, t.len());
    match def.kind {
        Asn1AssignmentKind::ObjectSet(s) => {
            assert_eq!(s.id, "IEs");
            assert_eq!(s.set.class, "F1AP-PROTOCOL-IES");
            assert_eq!(
                s.set.objects,
                strings(&["{ ID id-a TYPE A }", "{ ID id-b TYPE B }", "OtherSet"])
            );
        }
        _ => panic!("not an object set assignment"),
    }
}

#[test]
fn empty_object_set_and_extension_only() {
    let t = toks("Empty MY-CLASS ::= { }");
    let (def, _) = parse_object_set_definition(&t).unwrap();
    match def.kind {
        Asn1AssignmentKind::ObjectSet(s) => assert!(s.set.objects.is_empty()),
        _ => panic!("not an object set assignment"),
    }
    let t = toks("Ext MY-CLASS ::= { ... }");
    let (def, n) = parse_object_set_definition(&t).unwrap();
    assert_eq!(n, t.len());
    match def.kind {
        Asn1AssignmentKind::ObjectSet(s) => assert!(s.set.objects.is_empty()),
        _ => panic!("not an object set assignment"),
    }
}

#[test]
fn object_set_errors() {
    let t = toks("Bad MY-CLASS ::= { ::= }");
    assert_eq!(parse_object_set_definition(&t), Err(Error::NoProgress { at: t[4].clone() }));
    let t = toks("Open MY-CLASS ::= { a, b");
    assert_eq!(parse_object_set_definition(&t), Err(Error::UnexpectedEndOfTokens));
    let t = toks("Bad Mixed ::= { }");
    assert_eq!(
        parse_object_set_definition(&t),
        Err(Error::UnexpectedToken { expected: Expected::ClassReference, found: t[1].clone() })
    );
    let t = toks("Bad MY-CLASS ::= a");
    assert_eq!(
        parse_object_set_definition(&t),
        Err(Error::UnexpectedToken { expected: Expected::CurlyBegin, found: t[3].clone() })
    );
}

#[test]
fn typeish_definition_order_and_failure() {
    // A type definition is tried first.
    let t = toks("ABC ::= INTEGER");
    let (def, _) = parse_typeish_definition(&t).unwrap();
    assert!(matches!(def.kind, Asn1AssignmentKind::Type(_)));
    let t = toks("ABC ::= CLASS { &id INTEGER }");
    let (def, _) = parse_typeish_definition(&t).unwrap();
    assert!(matches!(def.kind, Asn1AssignmentKind::Class(_)));
    let t = toks("Abc ::= ::=");
    assert_eq!(parse_typeish_definition(&t), Err(Error::DefinitionFailed { at: t[0].clone() }));
}

#[test]
fn definition_errors() {
    assert_eq!(parse_definition(&[]), Err(Error::UnexpectedEndOfTokens));
    let t = toks("::= INTEGER");
    assert_eq!(parse_definition(&t), Err(Error::NotImplemented));
    let t = toks("foo");
    assert_eq!(parse_definition(&t), Err(Error::UnexpectedEndOfTokens));
}

#[test]
fn definition_shape_law() {
    // The name defined is that of the first token, and value assignments are
    // exactly those that start with a value reference.
    for input in [
        "v INTEGER ::= 1",
        "T ::= SEQUENCE { a INTEGER }",
        "C ::= CLASS { &id INTEGER }",
        "S C ::= { a }",
        "P {A, B} ::= CHOICE { a A, b B }",
    ] {
        let t = toks(input);
        let (def, _) = parse_definition(&t).unwrap();
        let (name, is_value) = match &def.kind {
            Asn1AssignmentKind::Value(v) => (v.id.clone(), true),
            Asn1AssignmentKind::Type(v) => (v.id.clone(), false),
            Asn1AssignmentKind::Class(v) => (v.id.clone(), false),
            Asn1AssignmentKind::ObjectSet(v) => (v.id.clone(), false),
        };
        assert_eq!(name, t[0].text);
        assert_eq!(is_value, t[0].is_value_reference());
        if def.params.is_some() {
            assert!(matches!(def.kind, Asn1AssignmentKind::Type(_)));
        }
    }
}

#[test]
fn types() {
    let cases: Vec<(&str, usize)> = vec![
        ("INTEGER (0..65535) DEFAULT 0", 6),
        ("INTEGER { a(1), b(2) } ::=", 12),
        ("SEQUENCE (SIZE (1..4)) OF Item , x", 11),
        ("SEQUENCE SIZE (1..4) OF SET OF INTEGER (1..2)", 16),
        ("SET { a NULL }", 5),
        ("OCTET STRING (SIZE (8))", 8),
        ("OBJECT IDENTIFIER", 2),
        ("CHARACTER STRING", 2),
        ("EMBEDDED PDV", 2),
        ("BOOLEAN", 1),
        ("ENUMERATED { a, b, ... }", 8),
        ("F1AP-PROTOCOL-IES.&Value ({IEsSetParam}{@id}) ,", 12),
        ("Container {{ IEs }} x", 6),
        ("UTF8String (SIZE (1..10))", 9),
    ];
    for (input, want) in cases {
        let t = toks(input);
        let (ty, n) = parse_type(&t).unwrap();
        assert_eq!(n, want, "{}", input);
        let texts: Vec<String> = t[..n].iter().map(|x| x.text.clone()).collect();
        assert_eq!(ty.tokens, texts);
    }
}

#[test]
fn type_errors() {
    let t = toks("SEQUENCE");
    assert_eq!(parse_type(&t), Err(Error::UnexpectedEndOfTokens));
    let t = toks("SEQUENCE (SIZE (1)) Item");
    assert_eq!(
        parse_type(&t),
        Err(Error::UnexpectedToken { expected: Expected::Keyword, found: t[7].clone() })
    );
    let t = toks("CHOICE a");
    assert_eq!(
        parse_type(&t),
        Err(Error::UnexpectedToken { expected: Expected::CurlyBegin, found: t[1].clone() })
    );
    let t = toks("CHOICE { a NULL");
    assert_eq!(parse_type(&t), Err(Error::UnexpectedEndOfTokens));
    let t = toks("INTEGER (0..1");
    assert_eq!(parse_type(&t), Err(Error::UnexpectedEndOfTokens));
    let t = toks("value");
    assert_eq!(
        parse_type(&t),
        Err(Error::UnexpectedToken { expected: Expected::Type, found: t[0].clone() })
    );
    assert_eq!(parse_type(&[]), Err(Error::UnexpectedEndOfTokens));
}

#[test]
fn values() {
    for (input, want) in [
        ("12", "12"),
        ("-3", "-3"),
        ("id-name", "id-name"),
        ("TRUE", "TRUE"),
        ("\"text\"", "\"text\""),
        ("'0A'H", "'0A'H"),
        ("{ 1 2 { 3 } }", "{ 1 2 { 3 } }"),
    ] {
        let t = toks(input);
        let (v, n) = parse_value(&t).unwrap();
        assert_eq!(v, want);
        assert_eq!(n, t.len());
    }
    let t = toks("SEQUENCE");
    assert_eq!(
        parse_value(&t),
        Err(Error::UnexpectedToken { expected: Expected::Value, found: t[0].clone() })
    );
}

#[test]
fn set_ish_values() {
    let t = toks("{ a { b } } c");
    assert_eq!(parse_set_ish_value(&t), Ok(("{ a { b } }".to_string(), 6)));
    let t = toks("{ a");
    assert_eq!(parse_set_ish_value(&t), Err(Error::UnexpectedEndOfTokens));
    let t = toks("a }");
    assert_eq!(
        parse_set_ish_value(&t),
        Err(Error::UnexpectedToken { expected: Expected::CurlyBegin, found: t[0].clone() })
    );
}

#[test]
fn classes() {
    let t = toks("CLASS { &a INTEGER } WITH SYNTAX { A &a } next");
    let (c, n) = parse_class(&t).unwrap();
    assert_eq!(n, t.len() - 1);
    assert_eq!(c.fields, strings(&["{", "&a", "INTEGER", "}"]));
    let t = toks("SEQUENCE { }");
    assert_eq!(
        parse_class(&t),
        Err(Error::UnexpectedToken { expected: Expected::ClassKeyword, found: t[0].clone() })
    );
}

#[test]
fn expectations() {
    let t = toks("Foo : bar");
    assert_eq!(expect_token(&t, TokenClass::TypeReference), Ok(true));
    assert_eq!(expect_token(&t, TokenClass::ValueReference), Ok(false));
    assert_eq!(expect_token(&[], TokenClass::Comma), Err(Error::UnexpectedEndOfTokens));
    assert_eq!(
        expect_one_of_tokens(&t, &[TokenClass::Comma, TokenClass::TypeReference]),
        Ok(true)
    );
    assert_eq!(expect_one_of_tokens(&t, &[TokenClass::Comma]), Ok(false));
    assert_eq!(
        expect_tokens(&t, &[&[TokenClass::TypeReference], &[TokenClass::Colon], &[TokenClass::ValueReference]]),
        Ok(true)
    );
    assert_eq!(
        expect_tokens(&t, &[&[TokenClass::TypeReference], &[TokenClass::Comma]]),
        Ok(false)
    );
    assert_eq!(
        expect_tokens(&t[1..], &[&[TokenClass::Colon], &[TokenClass::ValueReference], &[TokenClass::Comma]]),
        Err(Error::UnexpectedEndOfTokens)
    );
    let k = toks("CLASS");
    assert_eq!(expect_keyword(&k, "CLASS"), Ok(true));
    assert_eq!(expect_keyword(&k, "WITH"), Ok(false));
    assert_eq!(expect_keyword(&[], "WITH"), Err(Error::UnexpectedEndOfTokens));
}
