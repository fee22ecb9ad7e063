# asn1_compiler

A verified front end for ASN.1 modules and the decisions behind the codecs
generated for ENUMERATED types.

- `src/token.rs`, `src/lexer.rs`: tokens and the tokenizer, with a
  specification of the tokens of any text.
- `src/parser/`: the parser of definitions (`defs.rs`) and the readers of
  types, values, information object classes and braced groups it relies on.
  Each parser is specified by a spec function that gives, for any sequence of
  tokens, the definition read and the number of tokens taken, or the error.
- `src/codec.rs`, `src/generator.rs`: which codec functions are called, which
  index stands for which variant, the parameters of the `asn` attribute, and
  the enum `WorkRole`.
- `app/lib.rs`: reading a module from any reader, and producing Rust code
  with `syn` and `quote` from the decisions of the library.
