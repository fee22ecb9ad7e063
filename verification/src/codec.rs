//! The decisions behind the APER/UPER codecs that are generated for ASN.1
//! ENUMERATED types: which codec functions are called, which index stands for
//! which variant, and what is checked of the parameters of the `asn`
//! attribute; and `WorkRole`, an ENUMERATED type with such a codec.
use vstd::prelude::*;
use crate::token::is_digit;

verus! {

/// The functions that a generated codec calls, by their paths.
pub struct CodecPaths {
    pub codec_path: &'static str,
    pub encode_fn: &'static str,
    pub decode_fn: &'static str,
    pub encode_path: &'static str,
    pub decode_path: &'static str,
}

/// The codec functions for aligned (APER) or unaligned (UPER) encoding.
pub fn codec_paths(aligned: bool) -> (p: CodecPaths)
    ensures
        aligned ==> p.codec_path@ == "asn1_codecs::aper::AperCodec"@ && p.encode_fn@
            == "aper_encode"@ && p.decode_fn@ == "aper_decode"@ && p.encode_path@
            == "asn1_codecs::aper::encode::encode_enumerated"@ && p.decode_path@
            == "asn1_codecs::aper::decode::decode_enumerated"@,
        !aligned ==> p.codec_path@ == "asn1_codecs::uper::UperCodec"@ && p.encode_fn@
            == "uper_encode"@ && p.decode_fn@ == "uper_decode"@ && p.encode_path@
            == "asn1_codecs::uper::encode::encode_enumerated"@ && p.decode_path@
            == "asn1_codecs::uper::decode::decode_enumerated"@,
{
    if aligned {
        CodecPaths {
            codec_path: "asn1_codecs::aper::AperCodec",
            encode_fn: "aper_encode",
            decode_fn: "aper_decode",
            encode_path: "asn1_codecs::aper::encode::encode_enumerated",
            decode_path: "asn1_codecs::aper::decode::decode_enumerated",
        }
    } else {
        CodecPaths {
            codec_path: "asn1_codecs::uper::UperCodec",
            encode_fn: "uper_encode",
            decode_fn: "uper_decode",
            encode_path: "asn1_codecs::uper::encode::encode_enumerated",
            decode_path: "asn1_codecs::uper::decode::decode_enumerated",
        }
    }
}

/// The index that a decoder reads for each variant of an enum, in the order
/// of the variants: the first is 0, each next one more.
pub fn variant_decode_keys(variants: &Vec<String>) -> (arms: Vec<(i128, String)>)
    ensures
        arms@.len() == variants@.len(),
        forall|i: int|
            0 <= i < arms@.len() ==> (#[trigger] arms@[i]).0 == i && arms@[i].1 == variants@[i],
{
    let mut arms: Vec<(i128, String)> = Vec::new();
    let mut key: i128 = 0;
    let mut i: usize = 0;
    while i < variants.len()
        invariant
            i <= variants@.len(),
            key == i,
            arms@.len() == i,
            forall|j: int|
                0 <= j < i ==> (#[trigger] arms@[j]).0 == j && arms@[j].1 == variants@[j],
        decreases variants@.len() - i,
    {
        arms.push((key, variants[i].clone()));
        key = key + 1;
        i = i + 1;
    }
    arms
}

/// Whether the arms are keyed by their places: arm `i` has the key `i`.
pub open spec fn keyed_by_place(arms: Seq<(i128, String)>) -> bool {
    forall|i: int| 0 <= i < arms.len() ==> (#[trigger] arms[i]).0 == i
}

/// The name of the variant whose key is `idx`; the index itself where no arm
/// has that key.
pub open spec fn spec_decode_variant_name(arms: Seq<(i128, String)>, idx: i128) -> Result<
    String,
    i128,
> {
    if exists|i: int| 0 <= i < arms.len() && (#[trigger] arms[i]).0 == idx {
        Ok(arms[choose|i: int| 0 <= i < arms.len() && (#[trigger] arms[i]).0 == idx].1)
    } else {
        Err(idx)
    }
}

/// The name of the variant that a decoder returns for the index `idx`; the
/// index itself where no variant has it.
pub fn decode_variant_name(arms: &Vec<(i128, String)>, idx: i128) -> (r: Result<String, i128>)
    requires
        keyed_by_place(arms@),
    ensures
        r == spec_decode_variant_name(arms@, idx),
{
    if 0 <= idx && idx < arms.len() as i128 {
        let i = idx as usize;
        assert(arms@[i as int].0 == idx);
        let ghost j = choose|j: int| 0 <= j < arms@.len() && (#[trigger] arms@[j]).0 == idx;
        assert(arms@[j].0 == j);
        Ok(arms[i].1.clone())
    } else {
        assert(!exists|i: int| 0 <= i < arms@.len() && (#[trigger] arms@[i]).0 == idx);
        Err(idx)
    }
}

/// Decoding the key that `variant_decode_keys` gives a variant yields that
/// variant back, and no other index yields a variant.
pub proof fn law_decode_keys_roundtrip(variants: Seq<String>, arms: Seq<(i128, String)>, idx: i128)
    requires
        arms.len() == variants.len(),
        forall|i: int| 0 <= i < arms.len() ==> (#[trigger] arms[i]).0 == i && arms[i].1 == variants[i],
    ensures
        keyed_by_place(arms),
        0 <= idx < variants.len() ==> spec_decode_variant_name(arms, idx) == Ok::<String, i128>(
            variants[idx as int],
        ),
        !(0 <= idx < variants.len()) ==> spec_decode_variant_name(arms, idx) == Err::<String, i128>(
            idx,
        ),
{
    if 0 <= idx < variants.len() {
        assert(arms[idx as int].0 == idx);
        let j = choose|j: int| 0 <= j < arms.len() && (#[trigger] arms[j]).0 == idx;
        assert(arms[j].0 == j);
    }
}

/// The value of a string of decimal digits.
pub open spec fn digits_value(s: Seq<char>) -> int
    decreases s.len(),
{
    if s.len() == 0 {
        0
    } else {
        digits_value(s.drop_last()) * 10 + (s.last() as int - '0' as int)
    }
}

pub open spec fn all_digits(s: Seq<char>) -> bool {
    s.len() > 0 && forall|i: int| 0 <= i < s.len() ==> is_digit(#[trigger] s[i])
}

/// Whether the text starts with a sign, and the digits after it.
pub open spec fn split_sign(s: Seq<char>) -> (bool, Seq<char>) {
    if s.len() > 0 && s[0] == '-' {
        (true, s.skip(1))
    } else if s.len() > 0 && s[0] == '+' {
        (false, s.skip(1))
    } else {
        (false, s)
    }
}

/// The integer that `s` writes in decimal, with an optional sign, where it
/// fits in an `i128`.
pub open spec fn spec_parse_i128(s: Seq<char>) -> Option<i128> {
    let (neg, body) = split_sign(s);
    if !all_digits(body) {
        None
    } else {
        let v = if neg {
            -digits_value(body)
        } else {
            digits_value(body)
        };
        if i128::MIN <= v <= i128::MAX {
            Some(v as i128)
        } else {
            None
        }
    }
}

proof fn lemma_digits_value_monotone(s: Seq<char>, k: int)
    requires
        0 <= k <= s.len(),
        forall|i: int| 0 <= i < s.len() ==> is_digit(#[trigger] s[i]),
    ensures
        0 <= digits_value(s.take(k)) <= digits_value(s),
    decreases s.len() - k,
{
    if k < s.len() {
        lemma_digits_value_monotone(s, k + 1);
        assert(s.take(k + 1).drop_last() =~= s.take(k));
    } else {
        assert(s.take(k) =~= s);
        lemma_digits_value_nonneg(s);
    }
}

proof fn lemma_digits_value_nonneg(s: Seq<char>)
    requires
        forall|i: int| 0 <= i < s.len() ==> is_digit(#[trigger] s[i]),
    ensures
        0 <= digits_value(s),
    decreases s.len(),
{
    if s.len() > 0 {
        assert(forall|i: int|
            0 <= i < s.drop_last().len() ==> s.drop_last()[i] == s[i]);
        lemma_digits_value_nonneg(s.drop_last());
    }
}

/// The value of a decimal digit.
fn digit_value(c: char) -> (d: i128)
    requires
        is_digit(c),
    ensures
        d == c as int - '0' as int,
{
    if c == '0' {
        0
    } else if c == '1' {
        1
    } else if c == '2' {
        2
    } else if c == '3' {
        3
    } else if c == '4' {
        4
    } else if c == '5' {
        5
    } else if c == '6' {
        6
    } else if c == '7' {
        7
    } else if c == '8' {
        8
    } else {
        9
    }
}

/// Reads a decimal integer with an optional sign, as `str::parse::<i128>`
/// does; `None` where the text is no such integer or where it does not fit.
pub fn parse_i128(text: &str) -> (r: Option<i128>)
    ensures
        r == spec_parse_i128(text@),
{
    let s = crate::lexer::chars_of(text);
    let n = s.len();
    let mut start: usize = 0;
    let mut neg = false;
    if n > 0 && s[0] == '-' {
        neg = true;
        start = 1;
    } else if n > 0 && s[0] == '+' {
        start = 1;
    }
    let ghost body = split_sign(s@).1;
    assert(body =~= s@.skip(start as int));
    if start >= n {
        return None;
    }
    let mut i = start;
    while i < n
        invariant
            start <= i <= n,
            n == s@.len(),
            body == s@.skip(start as int),
            body == split_sign(s@).1,
            s@ == text@,
            forall|j: int| start <= j < i ==> is_digit(#[trigger] s@[j]),
        decreases n - i,
    {
        if !('0' <= s[i] && s[i] <= '9') {
            assert(!is_digit(body[i - start]));
            assert(!all_digits(body));
            return None;
        }
        i = i + 1;
    }
    assert(all_digits(body));
    let mut value: i128 = 0;
    let mut k = start;
    while k < n
        invariant
            start <= k <= n,
            n == s@.len(),
            body == s@.skip(start as int),
            all_digits(body),
            body == split_sign(s@).1,
            s@ == text@,
            neg == split_sign(s@).0,
            value == if neg {
                -digits_value(body.take(k - start))
            } else {
                digits_value(body.take(k - start))
            },
        decreases n - k,
    {
        assert(body[k - start] == s@[k as int]);
        let d = digit_value(s[k]);
        proof {
            assert(body.take(k - start + 1).drop_last() =~= body.take(k - start));
            assert(body.take(k - start + 1).last() == s@[k as int]);
            lemma_digits_value_monotone(body, k - start + 1);
        }
        let next = match value.checked_mul(10) {
            Some(m) => if neg {
                m.checked_sub(d)
            } else {
                m.checked_add(d)
            },
            None => None,
        };
        match next {
            Some(v) => {
                value = v;
            },
            None => {
                return None;
            },
        }
        k = k + 1;
    }
    assert(body.take(n - start) =~= body);
    Some(value)
}

/// What the `asn` attribute of an item says, as far as the codec needs it.
pub struct CodecParams {
    pub has_attr: bool,
    pub ty: Option<String>,
    pub lb: Option<String>,
    pub ub: Option<String>,
    pub ext: Option<bool>,
}

/// Why no codec can be derived from an item's attributes.
#[derive(Clone, Copy, Debug, PartialEq, Eq, Structural)]
pub enum DeriveError {
    /// The item has no `asn` attribute.
    MissingAttribute,
    /// The `asn` attribute has no `type` parameter.
    MissingType,
}

/// Checks that an item has an `asn` attribute with a `type`.
pub fn check_codec_params(params: &CodecParams) -> (r: Result<(), DeriveError>)
    ensures
        !params.has_attr ==> r == Err::<(), DeriveError>(DeriveError::MissingAttribute),
        params.has_attr && params.ty is None ==> r == Err::<(), DeriveError>(
            DeriveError::MissingType,
        ),
        params.has_attr && params.ty is Some ==> r is Ok,
{
    if !params.has_attr {
        return Err(DeriveError::MissingAttribute);
    }
    if params.ty.is_none() {
        return Err(DeriveError::MissingType);
    }
    Ok(())
}

/// The shape of the item that a codec is derived for.
pub enum ItemShape {
    /// A struct with unnamed fields, of these types.
    TupleStruct { field_types: Vec<String> },
    /// A struct with named fields, or a unit struct.
    OtherStruct,
    /// An enum with these variants.
    Enum { variants: Vec<String> },
    /// A union.
    Union,
}

/// What the codec of an ENUMERATED type is generated from.
pub enum EnumeratedCodecPlan {
    /// A struct that wraps the index as an integer of type `inner`.
    NewType { inner: String },
    /// An enum whose variants stand for the indexes `lb`, `lb + 1`, ...:
    /// a decoder reads an index between `lb` and `ub` and maps it by `arms`.
    Enum { lb: i128, ub: i128, ext: Option<bool>, arms: Vec<(i128, String)> },
}

/// Why no codec can be generated for an ENUMERATED type.
#[derive(Clone, Copy, Debug, PartialEq, Eq, Structural)]
pub enum PlanError {
    /// A struct without exactly one unnamed field.
    UnknownInnerType,
    /// Neither a struct nor an enum.
    NotStructOrEnum,
}

pub open spec fn enum_bounds_given(params: &CodecParams) -> bool {
    &&& params.lb matches Some(l) && spec_parse_i128(l@) is Some
    &&& params.ub matches Some(u) && spec_parse_i128(u@) is Some
}

/// Decides the codec of an ENUMERATED type: a struct with one unnamed field
/// wraps the index; an enum maps indexes to its variants in order, between
/// the bounds `lb` and `ub` of its attribute, which must be integers.
pub fn plan_enumerated_codec(shape: &ItemShape, params: &CodecParams) -> (r: Result<
    EnumeratedCodecPlan,
    PlanError,
>)
    requires
        shape is Enum ==> enum_bounds_given(params),
    ensures
        match shape {
            ItemShape::TupleStruct { field_types } => if field_types@.len() == 1 {
                (r matches Ok(EnumeratedCodecPlan::NewType { inner }) && inner == field_types@[0])
            } else {
                r == Err::<EnumeratedCodecPlan, PlanError>(PlanError::UnknownInnerType)
            },
            ItemShape::OtherStruct => r == Err::<EnumeratedCodecPlan, PlanError>(
                PlanError::UnknownInnerType,
            ),
            ItemShape::Enum { variants } => (r matches Ok(
                EnumeratedCodecPlan::Enum { lb, ub, ext, arms },
            ) && Some(lb) == spec_parse_i128(params.lb->0@) && Some(ub) == spec_parse_i128(
                params.ub->0@,
            ) && ext == params.ext && arms@.len() == variants@.len() && (forall|i: int|
                0 <= i < arms@.len() ==> (#[trigger] arms@[i]).0 == i && arms@[i].1
                    == variants@[i])),
            ItemShape::Union => r == Err::<EnumeratedCodecPlan, PlanError>(
                PlanError::NotStructOrEnum,
            ),
        },
{
    match shape {
        ItemShape::TupleStruct { field_types } => {
            if field_types.len() == 1 {
                Ok(EnumeratedCodecPlan::NewType { inner: field_types[0].clone() })
            } else {
                Err(PlanError::UnknownInnerType)
            }
        },
        ItemShape::OtherStruct => Err(PlanError::UnknownInnerType),
        ItemShape::Enum { variants } => {
            let lb = match &params.lb {
                Some(l) => parse_i128(l.as_str()),
                None => None,
            };
            let ub = match &params.ub {
                Some(u) => parse_i128(u.as_str()),
                None => None,
            };
            match (lb, ub) {
                (Some(lb), Some(ub)) => {
                    let arms = variant_decode_keys(variants);
                    Ok(EnumeratedCodecPlan::Enum { lb, ub, ext: params.ext, arms })
                },
                _ => Err(PlanError::NotStructOrEnum),
            }
        },
        ItemShape::Union => Err(PlanError::NotStructOrEnum),
    }
}

/// The roles of an employee: an extensible ENUMERATED type whose root values
/// are the indexes 0 to 3, in the order of the variants.
#[allow(non_camel_case_types)]
#[derive(Clone, Copy, Debug, PartialEq, Eq, Structural)]
pub enum WorkRole {
    CASHIER,
    MANAGER,
    CHEF,
    WAITER,
}

/// Why an index read by a decoder stands for no variant.
#[derive(Clone, Copy, Debug, PartialEq, Eq, Structural)]
pub enum CodecError {
    /// The index is not that of a variant.
    InvalidIndex(i128),
}

impl WorkRole {
    /// The lower bound of the root indexes.
    pub const LB: i128 = 0;

    /// The upper bound of the root indexes.
    pub const UB: i128 = 3;

    /// Whether the type has an extension marker.
    pub const EXTENSIBLE: bool = true;

    /// The index that stands for a variant: its place among the variants.
    pub open spec fn index(self) -> i128 {
        match self {
            WorkRole::CASHIER => 0,
            WorkRole::MANAGER => 1,
            WorkRole::CHEF => 2,
            WorkRole::WAITER => 3,
        }
    }

    /// The variant with index `idx`, if any.
    pub open spec fn spec_from_index(idx: i128) -> Result<WorkRole, CodecError> {
        if idx == 0 {
            Ok(WorkRole::CASHIER)
        } else if idx == 1 {
            Ok(WorkRole::MANAGER)
        } else if idx == 2 {
            Ok(WorkRole::CHEF)
        } else if idx == 3 {
            Ok(WorkRole::WAITER)
        } else {
            Err(CodecError::InvalidIndex(idx))
        }
    }

    /// The variant that a decoded index stands for; an error for an index
    /// that stands for none.
    pub fn from_index(idx: i128) -> (r: Result<WorkRole, CodecError>)
        ensures
            r == Self::spec_from_index(idx),
    {
        match idx {
            0 => Ok(WorkRole::CASHIER),
            1 => Ok(WorkRole::MANAGER),
            2 => Ok(WorkRole::CHEF),
            3 => Ok(WorkRole::WAITER),
            _ => Err(CodecError::InvalidIndex(idx)),
        }
    }

    /// Decoding the index of a variant gives the variant back, every index
    /// from `LB` to `UB` stands for a variant, and no other index does.
    pub proof fn law_index_roundtrip(v: WorkRole, idx: i128)
        ensures
            Self::spec_from_index(v.index()) == Ok::<WorkRole, CodecError>(v),
            Self::LB <= v.index() <= Self::UB,
            (Self::LB <= idx <= Self::UB) <==> Self::spec_from_index(idx) is Ok,
            Self::spec_from_index(idx) matches Ok(w) ==> w.index() == idx,
    {
    }
}

} // verus!
