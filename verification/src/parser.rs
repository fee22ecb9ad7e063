//! The parser: from tokens to the definitions of a module.
pub mod utils;
pub mod types;
pub mod values;
pub mod ioc;
pub mod defs;
