//! Tests of the type parser: simple types, arrays, widths and the
//! distinct diagnostics.

use solidity_ty::errors::ParseError;
use solidity_ty::ty::{SolidityPrimitiveType, SolidityType};

fn prim(p: SolidityPrimitiveType) -> SolidityType {
    SolidityType::Primitive(p)
}

#[test]
fn parses_simple_types() {
    assert_eq!(
        SolidityType::parse(b"bool"),
        Ok(prim(SolidityPrimitiveType::Bool))
    );
    assert_eq!(
        SolidityType::parse(b"uint256"),
        Ok(prim(SolidityPrimitiveType::Uint(256)))
    );
    assert_eq!(
        SolidityType::parse(b"uint"),
        Ok(prim(SolidityPrimitiveType::Uint(256)))
    );
    assert_eq!(
        SolidityType::parse(b"int"),
        Ok(prim(SolidityPrimitiveType::Int(256)))
    );
    assert_eq!(
        SolidityType::parse(b"int8"),
        Ok(prim(SolidityPrimitiveType::Int(8)))
    );
    assert_eq!(
        SolidityType::parse(b"address"),
        Ok(prim(SolidityPrimitiveType::Address(false)))
    );
    assert_eq!(
        SolidityType::parse(b"address payable"),
        Ok(prim(SolidityPrimitiveType::Address(true)))
    );
    assert_eq!(
        SolidityType::parse(b"fixed"),
        Ok(prim(SolidityPrimitiveType::Fixed(128, 18)))
    );
    assert_eq!(
        SolidityType::parse(b"ufixed"),
        Ok(prim(SolidityPrimitiveType::Ufixed(128, 18)))
    );
    assert_eq!(
        SolidityType::parse(b"fixed8x2"),
        Ok(prim(SolidityPrimitiveType::Fixed(8, 2)))
    );
    assert_eq!(
        SolidityType::parse(b"ufixed16x80"),
        Ok(prim(SolidityPrimitiveType::Ufixed(16, 80)))
    );
    assert_eq!(SolidityType::parse(b"string"), Ok(SolidityType::SolidityString));
    assert_eq!(SolidityType::parse(b"  uint256  "), Ok(prim(SolidityPrimitiveType::Uint(256))));
}

#[test]
fn uint_width_rule() {
    // The width must be a multiple of 8 within 8..=256.
    for n in [8usize, 16, 64, 128, 248, 256] {
        let text = format!("uint{}", n);
        assert_eq!(
            SolidityType::parse(text.as_bytes()),
            Ok(prim(SolidityPrimitiveType::Uint(n)))
        );
    }
    for bad in ["uint0", "uint7", "uint12", "uint264", "uint1000"] {
        assert_eq!(
            SolidityType::parse(bad.as_bytes()),
            Err(ParseError::SimpleType)
        );
    }
    // A suffix that is not a number is a malformed-signature failure.
    assert_eq!(SolidityType::parse(b"uintx"), Err(ParseError::Malformed));
    assert_eq!(SolidityType::parse(b"int8x"), Err(ParseError::Malformed));
}

#[test]
fn bytes_rule() {
    assert_eq!(SolidityType::parse(b"bytes7"), Ok(SolidityType::BytesStatic(7)));
    assert_eq!(SolidityType::parse(b"bytes1"), Ok(SolidityType::BytesStatic(1)));
    assert_eq!(SolidityType::parse(b"bytes32"), Ok(SolidityType::BytesStatic(32)));
    assert_eq!(SolidityType::parse(b"bytes33"), Err(ParseError::SimpleType));
    assert_eq!(SolidityType::parse(b"bytes0"), Err(ParseError::SimpleType));
    assert_eq!(SolidityType::parse(b"bytes"), Ok(SolidityType::Bytes));
}

#[test]
fn fixed_range_rule() {
    // The fraction-digit count is capped at 80.
    assert_eq!(SolidityType::parse(b"fixed8x81"), Err(ParseError::SimpleType));
    // Out-of-range integer digits fall through the same way.
    assert_eq!(SolidityType::parse(b"fixed7x2"), Err(ParseError::SimpleType));
    // A suffix without the `x` separator is malformed.
    assert_eq!(SolidityType::parse(b"fixed8"), Err(ParseError::Malformed));
}

#[test]
fn array_types_nest_rightmost_first() {
    assert_eq!(
        SolidityType::parse(b"uint256[3][]"),
        Ok(SolidityType::DynamicArray(Box::new(SolidityType::StaticArray(
            Box::new(prim(SolidityPrimitiveType::Uint(256))),
            3,
        ))))
    );
    assert_eq!(
        SolidityType::parse(b"uint8[]"),
        Ok(SolidityType::DynamicArray(Box::new(prim(SolidityPrimitiveType::Uint(8)))))
    );
    assert_eq!(
        SolidityType::parse(b"bool[2]"),
        Ok(SolidityType::StaticArray(Box::new(prim(SolidityPrimitiveType::Bool)), 2))
    );
    assert_eq!(
        SolidityType::parse(b"uint8[ 3 ]"),
        Ok(SolidityType::StaticArray(Box::new(prim(SolidityPrimitiveType::Uint(8))), 3))
    );
    assert_eq!(
        SolidityType::parse(b"string[][]"),
        Ok(SolidityType::DynamicArray(Box::new(SolidityType::DynamicArray(Box::new(
            SolidityType::SolidityString,
        )))))
    );
}

#[test]
fn array_diagnostics() {
    assert_eq!(SolidityType::parse(b"uint8["), Err(ParseError::ArrayType));
    assert_eq!(SolidityType::parse(b"uint8[3]x"), Err(ParseError::ArrayType));
    assert_eq!(SolidityType::parse(b"uint8[y]"), Err(ParseError::Malformed));
    // The element type is parsed before the bracket shape is judged.
    assert_eq!(SolidityType::parse(b"uint7[3]"), Err(ParseError::SimpleType));
}

#[test]
fn unsupported_and_illegal_names_are_distinct() {
    assert_eq!(SolidityType::parse(b"MyStruct"), Err(ParseError::UnsupportedType));
    assert_eq!(SolidityType::parse(b"_tag$1"), Err(ParseError::UnsupportedType));
    assert_eq!(SolidityType::parse(b"9name"), Err(ParseError::IllegalTypeName));
    assert_eq!(SolidityType::parse(b""), Err(ParseError::IllegalTypeName));
    assert_eq!(SolidityType::parse(b"a b"), Err(ParseError::IllegalTypeName));
}

#[test]
fn value_type_and_static_classification() {
    assert!(prim(SolidityPrimitiveType::Uint(8)).is_value_type());
    assert!(SolidityType::BytesStatic(4).is_value_type());
    assert!(!SolidityType::Bytes.is_value_type());
    assert!(!SolidityType::SolidityString.is_value_type());

    assert!(prim(SolidityPrimitiveType::Bool).is_static());
    assert!(SolidityType::BytesStatic(32).is_static());
    assert!(!SolidityType::Bytes.is_static());
    assert!(!SolidityType::SolidityString.is_static());
    let sa = SolidityType::StaticArray(Box::new(prim(SolidityPrimitiveType::Uint(8))), 4);
    assert!(sa.is_static());
    let da = SolidityType::DynamicArray(Box::new(prim(SolidityPrimitiveType::Uint(8))));
    assert!(!da.is_static());
    // A tuple is static exactly when every member is.
    let t1 = SolidityType::Tuple(vec![prim(SolidityPrimitiveType::Bool), sa]);
    assert!(t1.is_static());
    let t2 = SolidityType::Tuple(vec![prim(SolidityPrimitiveType::Bool), da]);
    assert!(!t2.is_static());
    // A static array of a dynamic element is dynamic.
    let sad = SolidityType::StaticArray(Box::new(SolidityType::Bytes), 2);
    assert!(!sad.is_static());
}

#[test]
fn round_trip_through_canonical_rendering() {
    let samples: Vec<&[u8]> = vec![
        b"bool",
        b"uint256",
        b"int64",
        b"address",
        b"fixed128x18",
        b"ufixed8x80",
        b"bytes",
        b"bytes7",
        b"string",
        b"uint256[3][]",
        b"bool[2][4]",
        b"string[]",
    ];
    for text in samples {
        let t = SolidityType::parse(text).unwrap();
        let rendered = t.canonical_bytes();
        let again = SolidityType::parse(&rendered).unwrap();
        assert_eq!(t, again);
    }
    // The defaults render with their width written out.
    let t = SolidityType::parse(b"uint").unwrap();
    assert_eq!(t.canonical_bytes(), b"uint256".to_vec());
    let again = SolidityType::parse(&t.canonical_bytes()).unwrap();
    assert_eq!(t, again);
}
