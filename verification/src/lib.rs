//! A parser for the definitions of ASN.1 modules, with the tokenizer it reads
//! from, and the decisions behind the generation of codecs for ENUMERATED types.
pub mod token;
pub mod error;
pub mod structs;
pub mod parser;
pub mod lexer;
pub mod codec;
pub mod generator;
