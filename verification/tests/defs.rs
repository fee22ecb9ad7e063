use asn1_compiler::lexer::tokenize;
use asn1_compiler::parser::defs::parse_definition;

struct ParseDefinitionTestCase<'tc> {
    input: &'tc str,
    success: bool,
}

#[test]
fn parse_definition_tests() {
    let test_cases = vec![ParseDefinitionTestCase {
        input: r#"
PDCP-Capability-r4-ext ::=                      SEQUENCE {
        supportForRfc3095                               CHOICE {
                notSupported                                            NULL,
                supported                                                       SEQUENCE {
                        maxROHC-ContextSessions                         MaxROHC-ContextSessions-r4      DEFAULT s16,
                        reverseCompressionDepth                         INTEGER (0..65535)                      DEFAULT 0
                }
        }
}
                    "#,
        success: true,
    }];

    for tc in test_cases {
        let tokens = tokenize(tc.input);
        assert!(tokens.is_ok());
        let tokens = tokens.unwrap();

        let def = parse_definition(&tokens);
        assert_eq!(
            def.is_ok(),
            tc.success,
            "{}:{}",
            tc.input,
            if tc.success {
                format!("{:#?}", def.err())
            } else {
                format!("{:#?}", def.ok())
            }
        );
    }

    assert!(true);
}
