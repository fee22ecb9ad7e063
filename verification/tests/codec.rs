use asn1_compiler::codec::{
    check_codec_params, codec_paths, decode_variant_name, parse_i128, plan_enumerated_codec,
    variant_decode_keys, CodecError, CodecParams, DeriveError, EnumeratedCodecPlan, ItemShape,
    PlanError, WorkRole,
};
use asn1_compiler::generator::{const_name, enumerated_form, Asn1ResolvedEnumerated, EnumeratedForm};

fn names(v: &[&str]) -> Vec<String> {
    v.iter().map(|s| s.to_string()).collect()
}

#[test]
fn work_role_decodes_its_indexes() {
    assert_eq!(WorkRole::from_index(0), Ok(WorkRole::CASHIER));
    assert_eq!(WorkRole::from_index(1), Ok(WorkRole::MANAGER));
    assert_eq!(WorkRole::from_index(2), Ok(WorkRole::CHEF));
    assert_eq!(WorkRole::from_index(3), Ok(WorkRole::WAITER));
    assert_eq!(WorkRole::from_index(4), Err(CodecError::InvalidIndex(4)));
    assert_eq!(WorkRole::from_index(-1), Err(CodecError::InvalidIndex(-1)));
    assert_eq!((WorkRole::LB, WorkRole::UB, WorkRole::EXTENSIBLE), (0, 3, true));
}

#[test]
fn work_role_index_roundtrip() {
    // Every index from LB to UB stands for exactly one variant.
    let mut seen = Vec::new();
    for idx in WorkRole::LB..=WorkRole::UB {
        let v = WorkRole::from_index(idx).unwrap();
        assert!(!seen.contains(&v));
        seen.push(v);
    }
    assert_eq!(seen.len(), 4);
}

#[test]
fn paths_for_aligned_and_unaligned() {
    let a = codec_paths(true);
    assert_eq!(a.codec_path, "asn1_codecs::aper::AperCodec");
    assert_eq!(a.encode_fn, "aper_encode");
    assert_eq!(a.decode_fn, "aper_decode");
    assert_eq!(a.encode_path, "asn1_codecs::aper::encode::encode_enumerated");
    assert_eq!(a.decode_path, "asn1_codecs::aper::decode::decode_enumerated");
    let u = codec_paths(false);
    assert_eq!(u.codec_path, "asn1_codecs::uper::UperCodec");
    assert_eq!(u.encode_fn, "uper_encode");
    assert_eq!(u.decode_fn, "uper_decode");
    assert_eq!(u.encode_path, "asn1_codecs::uper::encode::encode_enumerated");
    assert_eq!(u.decode_path, "asn1_codecs::uper::decode::decode_enumerated");
}

#[test]
fn variant_keys_count_from_zero() {
    let arms = variant_decode_keys(&names(&["CASHIER", "MANAGER", "CHEF", "WAITER"]));
    assert_eq!(
        arms,
        vec![
            (0, "CASHIER".to_string()),
            (1, "MANAGER".to_string()),
            (2, "CHEF".to_string()),
            (3, "WAITER".to_string()),
        ]
    );
    assert_eq!(decode_variant_name(&arms, 2), Ok("CHEF".to_string()));
    assert_eq!(decode_variant_name(&arms, 4), Err(4));
    assert_eq!(decode_variant_name(&arms, -7), Err(-7));
    assert!(variant_decode_keys(&vec![]).is_empty());
}

#[test]
fn decoding_a_key_gives_its_variant_back() {
    let variants = names(&["A", "B", "C"]);
    let arms = variant_decode_keys(&variants);
    for (key, name) in &arms {
        assert_eq!(decode_variant_name(&arms, *key), Ok(name.clone()));
    }
}

#[test]
fn parse_integers() {
    assert_eq!(parse_i128("0"), Some(0));
    assert_eq!(parse_i128("42"), Some(42));
    assert_eq!(parse_i128("+7"), Some(7));
    assert_eq!(parse_i128("-15"), Some(-15));
    assert_eq!(parse_i128("170141183460469231731687303715884105727"), Some(i128::MAX));
    assert_eq!(parse_i128("-170141183460469231731687303715884105728"), Some(i128::MIN));
    assert_eq!(parse_i128("170141183460469231731687303715884105728"), None);
    assert_eq!(parse_i128("-170141183460469231731687303715884105729"), None);
    assert_eq!(parse_i128(""), None);
    assert_eq!(parse_i128("-"), None);
    assert_eq!(parse_i128("12a"), None);
    assert_eq!(parse_i128(" 1"), None);
    for s in ["0", "-0", "+12", "-99", "123456789", "x", "--1"] {
        assert_eq!(parse_i128(s), s.parse::<i128>().ok(), "{}", s);
    }
}

#[test]
fn codec_params_are_checked() {
    let p = |has_attr: bool, ty: Option<&str>| CodecParams {
        has_attr,
        ty: ty.map(|s| s.to_string()),
        lb: None,
        ub: None,
        ext: None,
    };
    assert_eq!(check_codec_params(&p(false, None)), Err(DeriveError::MissingAttribute));
    assert_eq!(check_codec_params(&p(false, Some("ENUMERATED"))), Err(DeriveError::MissingAttribute));
    assert_eq!(check_codec_params(&p(true, None)), Err(DeriveError::MissingType));
    assert_eq!(check_codec_params(&p(true, Some("ENUMERATED"))), Ok(()));
}

#[test]
fn plans_for_enumerated_codecs() {
    let params = CodecParams {
        has_attr: true,
        ty: Some("ENUMERATED".to_string()),
        lb: Some("0".to_string()),
        ub: Some("3".to_string()),
        ext: Some(true),
    };
    let shape = ItemShape::Enum { variants: names(&["CASHIER", "MANAGER", "CHEF", "WAITER"]) };
    match plan_enumerated_codec(&shape, &params) {
        Ok(EnumeratedCodecPlan::Enum { lb, ub, ext, arms }) => {
            assert_eq!((lb, ub, ext), (0, 3, Some(true)));
            assert_eq!(arms.len(), 4);
            assert_eq!(arms[3], (3, "WAITER".to_string()));
        }
        _ => panic!("expected an enum plan"),
    }
    let shape = ItemShape::TupleStruct { field_types: names(&["u8"]) };
    match plan_enumerated_codec(&shape, &params) {
        Ok(EnumeratedCodecPlan::NewType { inner }) => assert_eq!(inner, "u8"),
        _ => panic!("expected a new-type plan"),
    }
    let shape = ItemShape::TupleStruct { field_types: names(&["u8", "u8"]) };
    assert!(matches!(plan_enumerated_codec(&shape, &params), Err(PlanError::UnknownInnerType)));
    assert!(matches!(
        plan_enumerated_codec(&ItemShape::OtherStruct, &params),
        Err(PlanError::UnknownInnerType)
    ));
    assert!(matches!(
        plan_enumerated_codec(&ItemShape::Union, &params),
        Err(PlanError::NotStructOrEnum)
    ));
}

#[test]
fn generated_enumerated_attributes_and_form() {
    let e = Asn1ResolvedEnumerated {
        bits: 8,
        signed: false,
        named_root_values: vec![("a".to_string(), 0), ("b".to_string(), 1), ("c".to_string(), 2)],
        extensible: true,
    };
    let a = e.attributes();
    assert_eq!((a.extensible, a.lb, a.ub), (true, 0, 2));
    assert_eq!(enumerated_form(&Some("ENUMS".to_string())), EnumeratedForm::RustEnum);
    assert_eq!(enumerated_form(&Some("enums".to_string())), EnumeratedForm::NewType);
    assert_eq!(enumerated_form(&None), EnumeratedForm::NewType);
}

#[test]
fn constant_names() {
    assert_eq!(const_name(&"id-Cause-r4".to_string()), "ID_CAUSE_R4");
    assert_eq!(const_name(&"".to_string()), "");
    assert_eq!(const_name(&"ABC_1".to_string()), "ABC_1");
}
