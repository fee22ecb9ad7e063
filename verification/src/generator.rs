//! The decisions behind the Rust code that is generated for a resolved ASN.1
//! ENUMERATED type: the parameters of its `asn` attribute and the form it
//! takes.
use vstd::prelude::*;
use crate::token::{is_lower, text_is};

verus! {

/// An ENUMERATED type after resolution: its named root values, whether it is
/// extensible, and the width and sign of the integer that holds its values.
pub struct Asn1ResolvedEnumerated {
    pub bits: u8,
    pub signed: bool,
    pub named_root_values: Vec<(String, i128)>,
    pub extensible: bool,
}

/// The form of the generated type: a Rust enum, or a struct that wraps an
/// integer, with a constant for each named value.
#[derive(Clone, Copy, Debug, PartialEq, Eq, Structural)]
pub enum EnumeratedForm {
    RustEnum,
    NewType,
}

/// The parameters of the `asn` attribute of the generated type: whether it is
/// extensible, and the bounds of its root indexes.
#[derive(Clone, Copy, Debug, PartialEq, Eq, Structural)]
pub struct EnumeratedAttributes {
    pub extensible: bool,
    pub lb: usize,
    pub ub: usize,
}

/// The form asked for by the setting `ENUMS`: a Rust enum where the setting
/// holds exactly `ENUMS`, else a struct.
pub fn enumerated_form(setting: &Option<String>) -> (f: EnumeratedForm)
    ensures
        f == (if setting matches Some(v) && v@ == "ENUMS"@ {
            EnumeratedForm::RustEnum
        } else {
            EnumeratedForm::NewType
        }),
{
    match setting {
        Some(v) => if text_is(v.as_str(), "ENUMS") {
            EnumeratedForm::RustEnum
        } else {
            EnumeratedForm::NewType
        },
        None => EnumeratedForm::NewType,
    }
}


/// The character that a name's character becomes in the name of a constant:
/// lower-case letters become upper-case, hyphens become underscores.
pub open spec fn const_char(c: char) -> char {
    if is_lower(c) {
        (c as u32 - 32) as char
    } else if c == '-' {
        '_'
    } else {
        c
    }
}

fn const_char_exec(c: char) -> (r: char)
    ensures
        r == const_char(c),
{
    if 'a' <= c && c <= 'z' {
        ((c as u8) - 32) as char
    } else if c == '-' {
        '_'
    } else {
        c
    }
}

/// The name of the constant that stands for a named value: the name in
/// upper case, with underscores for hyphens.
pub fn const_name(name: &String) -> (r: String)
    ensures
        r@ == name@.map_values(|c: char| const_char(c)),
{
    let chars = crate::lexer::chars_of(name.as_str());
    let mut r = String::new();
    let mut i: usize = 0;
    while i < chars.len()
        invariant
            i <= chars@.len(),
            chars@ == name@,
            r@ == chars@.take(i as int).map_values(|c: char| const_char(c)),
        decreases chars@.len() - i,
    {
        let c = const_char_exec(chars[i]);
        crate::lexer::push_char(&mut r, c);
        assert(chars@.take(i + 1).map_values(|c: char| const_char(c)) =~= chars@.take(
            i as int,
        ).map_values(|c: char| const_char(c)).push(c));
        i = i + 1;
    }
    assert(chars@.take(chars@.len() as int) =~= chars@);
    r
}

impl Asn1ResolvedEnumerated {
    /// The attribute parameters: the root indexes run from 0 to one less
    /// than the number of named root values.
    pub fn attributes(&self) -> (a: EnumeratedAttributes)
        requires
            self.named_root_values@.len() > 0,
        ensures
            a.extensible == self.extensible,
            a.lb == 0,
            a.ub == self.named_root_values@.len() - 1,
    {
        EnumeratedAttributes {
            extensible: self.extensible,
            lb: 0,
            ub: self.named_root_values.len() - 1,
        }
    }
}

} // verus!
