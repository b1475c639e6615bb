//! Tests of the signature parser, the selector rendering, the layout
//! calculator, and the compatibility checker with the source model.

use solidity_ty::compat::{MoveFunctionInfo, MovePrimitiveType, MoveType};
use solidity_ty::errors::{InternalError, ParseError};
use solidity_ty::layout::{abi_head_sizes_sum, abi_head_sizes_vec};
use solidity_ty::render::mangle_solidity_types;
use solidity_ty::sig::SoliditySignature;
use solidity_ty::ty::{SignatureDataLocation, SolidityPrimitiveType, SolidityType};

fn prim(p: SolidityPrimitiveType) -> SolidityType {
    SolidityType::Primitive(p)
}

#[test]
fn parses_transfer_signature() {
    let sig = SoliditySignature::parse_into_solidity_signature(b"transfer(address,uint256)")
        .unwrap();
    assert_eq!(sig.sig_name, b"transfer".to_vec());
    assert_eq!(
        sig.para_types,
        vec![
            (prim(SolidityPrimitiveType::Address(false)), SignatureDataLocation::Memory),
            (prim(SolidityPrimitiveType::Uint(256)), SignatureDataLocation::Memory),
        ]
    );
    assert_eq!(sig.ret_types, vec![]);
    assert_eq!(sig.selector_signature(), b"transfer(address,uint256)".to_vec());
}

#[test]
fn parses_returns_clause_and_locations() {
    let sig = SoliditySignature::parse_into_solidity_signature(
        b" f ( uint8[] memory , string ) returns ( bytes ) ",
    )
    .unwrap();
    assert_eq!(sig.sig_name, b"f".to_vec());
    assert_eq!(sig.para_types.len(), 2);
    assert_eq!(
        sig.para_types[0],
        (
            SolidityType::DynamicArray(Box::new(prim(SolidityPrimitiveType::Uint(8)))),
            SignatureDataLocation::Memory
        )
    );
    assert_eq!(sig.para_types[1], (SolidityType::SolidityString, SignatureDataLocation::Memory));
    assert_eq!(sig.ret_types, vec![(SolidityType::Bytes, SignatureDataLocation::Memory)]);
    // Return types take no part in the selector input.
    assert_eq!(sig.selector_signature(), b"f(uint8[],string)".to_vec());
}

#[test]
fn empty_parameter_list() {
    let sig = SoliditySignature::parse_into_solidity_signature(b"init()").unwrap();
    assert_eq!(sig.sig_name, b"init".to_vec());
    assert!(sig.para_types.is_empty());
    assert!(sig.ret_types.is_empty());
    assert_eq!(sig.selector_signature(), b"init()".to_vec());
}

#[test]
fn location_on_value_type_is_rejected() {
    assert_eq!(
        SoliditySignature::parse_into_solidity_signature(b"f(uint8 memory)").unwrap_err(),
        ParseError::LocationOnValueType
    );
    assert_eq!(
        SoliditySignature::parse_into_solidity_signature(b"f(bytes7 memory)").unwrap_err(),
        ParseError::LocationOnValueType
    );
}

#[test]
fn signature_diagnostics() {
    assert_eq!(
        SoliditySignature::parse_into_solidity_signature(b"f(bytes calldata)").unwrap_err(),
        ParseError::CalldataUnsupported
    );
    assert_eq!(
        SoliditySignature::parse_into_solidity_signature(b"f(uint8) returns uint8").unwrap_err(),
        ParseError::ReturnClause
    );
    assert_eq!(
        SoliditySignature::parse_into_solidity_signature(b"f(uint8) extra").unwrap_err(),
        ParseError::ReturnClause
    );
    assert_eq!(
        SoliditySignature::parse_into_solidity_signature(b"f(uint8,)").unwrap_err(),
        ParseError::Malformed
    );
    assert_eq!(
        SoliditySignature::parse_into_solidity_signature(b"f(uint8,,bool)").unwrap_err(),
        ParseError::Malformed
    );
    // The fragments are parsed left to right, so a bad name comes
    // before a later empty fragment is noticed.
    assert_eq!(
        SoliditySignature::parse_into_solidity_signature(b"f(a,,b)").unwrap_err(),
        ParseError::UnsupportedType
    );
    assert_eq!(
        SoliditySignature::parse_into_solidity_signature(b"(uint8)").unwrap_err(),
        ParseError::Malformed
    );
    assert_eq!(
        SoliditySignature::parse_into_solidity_signature(b"f uint8").unwrap_err(),
        ParseError::Malformed
    );
}

#[test]
fn extract_para_type_str_splits_on_commas() {
    let ps = SoliditySignature::extract_para_type_str(b"uint8[] memory, bool").unwrap();
    assert_eq!(ps.len(), 2);
    assert_eq!(ps[1], (prim(SolidityPrimitiveType::Bool), SignatureDataLocation::Memory));
    let none = SoliditySignature::extract_para_type_str(b"   ").unwrap();
    assert!(none.is_empty());
}

#[test]
fn head_sizes_match_the_abi_table() {
    assert_eq!(prim(SolidityPrimitiveType::Bool).abi_head_size(false), 1);
    assert_eq!(prim(SolidityPrimitiveType::Bool).abi_head_size(true), 32);
    assert_eq!(prim(SolidityPrimitiveType::Uint(64)).abi_head_size(false), 8);
    assert_eq!(prim(SolidityPrimitiveType::Uint(64)).abi_head_size(true), 32);
    assert_eq!(prim(SolidityPrimitiveType::Address(false)).abi_head_size(false), 20);
    assert_eq!(prim(SolidityPrimitiveType::Address(false)).abi_head_size(true), 32);
    assert_eq!(prim(SolidityPrimitiveType::Fixed(64, 18)).abi_head_size(false), 8);

    // The unpadded size of `bytes<N>` multiplies by 8: a head-size
    // convention of this system (a bit count, unlike every other
    // unpadded entry), which downstream consumers rely on.
    assert_eq!(SolidityType::BytesStatic(7).abi_head_size(false), 56);
    assert_eq!(SolidityType::BytesStatic(7).abi_head_size(true), 32);

    // Dynamic types occupy the fixed 32-byte offset slot either way.
    assert_eq!(SolidityType::Bytes.abi_head_size(false), 32);
    assert_eq!(SolidityType::Bytes.abi_head_size(true), 32);
    assert_eq!(SolidityType::SolidityString.abi_head_size(true), 32);
    let nested = SolidityType::parse(b"uint256[3][]").unwrap();
    assert_eq!(nested.abi_head_size(false), 32);
    assert_eq!(nested.abi_head_size(true), 32);

    // A static array multiplies and, padded, rounds up to a word.
    let sa = SolidityType::parse(b"uint64[3]").unwrap();
    assert_eq!(sa.abi_head_size(false), 24);
    assert_eq!(sa.abi_head_size(true), 96);
    let sb = SolidityType::StaticArray(Box::new(prim(SolidityPrimitiveType::Bool)), 3);
    assert_eq!(sb.abi_head_size(false), 3);
    assert_eq!(sb.abi_head_size(true), 96);

    // A tuple sums its members.
    let t = SolidityType::Tuple(vec![
        prim(SolidityPrimitiveType::Bool),
        prim(SolidityPrimitiveType::Uint(64)),
    ]);
    assert_eq!(t.abi_head_size(false), 9);
    assert_eq!(t.abi_head_size(true), 64);
}

#[test]
fn head_size_sums_and_pairs() {
    let tys = vec![
        prim(SolidityPrimitiveType::Bool),
        prim(SolidityPrimitiveType::Uint(64)),
        SolidityType::Bytes,
    ];
    assert_eq!(abi_head_sizes_sum(&tys, true), 96);
    assert_eq!(abi_head_sizes_sum(&tys, false), 41);
    let pairs = abi_head_sizes_vec(&tys, false);
    assert_eq!(pairs.len(), 3);
    assert_eq!(pairs[0], (prim(SolidityPrimitiveType::Bool), 1));
    assert_eq!(pairs[2], (SolidityType::Bytes, 32));
}

#[test]
fn max_value_names_the_bit_width() {
    assert_eq!(
        prim(SolidityPrimitiveType::Uint(256)).max_value(),
        b"${MAX_U256}".to_vec()
    );
    assert_eq!(prim(SolidityPrimitiveType::Bool).max_value(), b"${MAX_U8}".to_vec());
    assert_eq!(
        prim(SolidityPrimitiveType::Address(false)).max_value(),
        b"${MAX_U160}".to_vec()
    );
}

#[test]
fn location_renders_as_memory() {
    assert_eq!(SignatureDataLocation::Memory.canonical_bytes(), b"memory".to_vec());
}

#[test]
fn compute_param_types_joins_with_commas() {
    let sig = SoliditySignature::parse_into_solidity_signature(b"f(bool,uint8[])").unwrap();
    let tys = vec![
        prim(SolidityPrimitiveType::Bool),
        SolidityType::DynamicArray(Box::new(prim(SolidityPrimitiveType::Uint(8)))),
    ];
    assert_eq!(sig.compute_param_types(&tys), b"bool,uint8[]".to_vec());
    assert_eq!(sig.compute_param_types(&[]), b"".to_vec());
    // A tuple renders parenthesized inside the list.
    let tuple = SolidityType::Tuple(vec![
        prim(SolidityPrimitiveType::Bool),
        SolidityType::SolidityString,
    ]);
    assert_eq!(tuple.canonical_bytes(), b"(bool,string)".to_vec());
}

#[test]
fn mangled_names() {
    assert_eq!(mangle_solidity_types(&[]), b"".to_vec());
    assert_eq!(
        mangle_solidity_types(&[prim(SolidityPrimitiveType::Uint(8)), SolidityType::Bytes]),
        b"$uint8_bytes$".to_vec()
    );
}

#[test]
fn uint_compatibility_by_width() {
    let u8s = MoveType::Primitive(MovePrimitiveType::U8);
    let u64s = MoveType::Primitive(MovePrimitiveType::U64);
    let u128s = MoveType::Primitive(MovePrimitiveType::U128);
    // An 8-bit integer fits only a type that can hold 8 bits exactly
    // or more; the wider kinds accept any width up to their own.
    assert!(SolidityPrimitiveType::Uint(8).check_primitive_type_compatibility(&u8s));
    assert!(!SolidityPrimitiveType::Uint(16).check_primitive_type_compatibility(&u8s));
    assert!(!SolidityPrimitiveType::Uint(64).check_primitive_type_compatibility(&u8s));
    assert!(SolidityPrimitiveType::Uint(64).check_primitive_type_compatibility(&u64s));
    assert!(SolidityPrimitiveType::Uint(8).check_primitive_type_compatibility(&u64s));
    assert!(!SolidityPrimitiveType::Uint(128).check_primitive_type_compatibility(&u64s));
    assert!(SolidityPrimitiveType::Uint(128).check_primitive_type_compatibility(&u128s));
    // The recognized 256-bit struct accepts any integer width.
    let big = MoveType::Struct { is_u256: true, is_string: false, fields: vec![] };
    assert!(SolidityPrimitiveType::Uint(256).check_primitive_type_compatibility(&big));
    // Fixed-point types match nothing.
    assert!(!SolidityPrimitiveType::Fixed(64, 2).check_primitive_type_compatibility(&u64s));
    // Booleans and addresses match their own kinds only.
    assert!(SolidityPrimitiveType::Bool
        .check_primitive_type_compatibility(&MoveType::Primitive(MovePrimitiveType::Bool)));
    assert!(SolidityPrimitiveType::Address(false)
        .check_primitive_type_compatibility(&MoveType::Primitive(MovePrimitiveType::Signer)));
    assert!(!SolidityPrimitiveType::Address(false).check_primitive_type_compatibility(&u8s));
}

#[test]
fn structural_compatibility() {
    let bytes_vec = MoveType::Vector(Box::new(MoveType::Primitive(MovePrimitiveType::U8)));
    assert!(SolidityType::Bytes.check_type_compatibility(&bytes_vec));
    assert!(SolidityType::BytesStatic(4).check_type_compatibility(&bytes_vec));
    assert!(SolidityType::SolidityString.check_type_compatibility(&bytes_vec));
    let string_struct = MoveType::Struct { is_u256: false, is_string: true, fields: vec![] };
    assert!(SolidityType::SolidityString.check_type_compatibility(&string_struct));
    assert!(!SolidityType::Bytes.check_type_compatibility(&string_struct));
    let u64_vec = MoveType::Vector(Box::new(MoveType::Primitive(MovePrimitiveType::U64)));
    let arr = SolidityType::DynamicArray(Box::new(prim(SolidityPrimitiveType::Uint(64))));
    assert!(arr.check_type_compatibility(&u64_vec));
    assert!(!arr.check_type_compatibility(&MoveType::Primitive(MovePrimitiveType::U64)));
    // A narrow integer fits inside a wider source element.
    let sarr = SolidityType::StaticArray(Box::new(prim(SolidityPrimitiveType::Uint(8))), 2);
    assert!(sarr.check_type_compatibility(&u64_vec));
    let barr = SolidityType::StaticArray(Box::new(prim(SolidityPrimitiveType::Bool)), 2);
    assert!(!barr.check_type_compatibility(&u64_vec));
}

#[test]
fn signature_compatibility_checks_both_lists() {
    let sig = SoliditySignature::parse_into_solidity_signature(b"transfer(address,uint256)")
        .unwrap();
    let fun = MoveFunctionInfo {
        name: b"transfer".to_vec(),
        param_types: vec![
            MoveType::Primitive(MovePrimitiveType::Address),
            MoveType::Struct { is_u256: true, is_string: false, fields: vec![] },
        ],
        return_types: vec![],
    };
    assert!(sig.check_sig_compatibility(&fun));
    let wrong_arity = MoveFunctionInfo {
        name: b"transfer".to_vec(),
        param_types: vec![MoveType::Primitive(MovePrimitiveType::Address)],
        return_types: vec![],
    };
    assert!(!sig.check_sig_compatibility(&wrong_arity));
    let wrong_kind = MoveFunctionInfo {
        name: b"transfer".to_vec(),
        param_types: vec![
            MoveType::Primitive(MovePrimitiveType::Bool),
            MoveType::Struct { is_u256: true, is_string: false, fields: vec![] },
        ],
        return_types: vec![],
    };
    assert!(!sig.check_sig_compatibility(&wrong_kind));
}

#[test]
fn default_translation() {
    // A record struct not recognized as the big integer flattens to a
    // tuple of its translated fields.
    let record = MoveType::Struct {
        is_u256: false,
        is_string: false,
        fields: vec![
            MoveType::Primitive(MovePrimitiveType::Bool),
            MoveType::Primitive(MovePrimitiveType::U64),
        ],
    };
    assert_eq!(
        SolidityType::translate_from_move(&record),
        Ok(SolidityType::Tuple(vec![
            prim(SolidityPrimitiveType::Bool),
            prim(SolidityPrimitiveType::Uint(64)),
        ]))
    );
    let big = MoveType::Struct { is_u256: true, is_string: false, fields: vec![] };
    assert_eq!(
        SolidityType::translate_from_move(&big),
        Ok(prim(SolidityPrimitiveType::Uint(256)))
    );
    assert_eq!(
        SolidityType::translate_from_move(&MoveType::Vector(Box::new(MoveType::Primitive(
            MovePrimitiveType::U8
        )))),
        Ok(SolidityType::DynamicArray(Box::new(prim(SolidityPrimitiveType::Uint(8)))))
    );
    assert_eq!(
        SolidityType::translate_from_move(&MoveType::Primitive(MovePrimitiveType::Signer)),
        Ok(prim(SolidityPrimitiveType::Address(false)))
    );
    assert_eq!(
        SolidityType::translate_from_move(&MoveType::Unrepresentable),
        Err(InternalError::UnexpectedFieldType)
    );
}

#[test]
fn default_signature_translates_every_type() {
    let fun = MoveFunctionInfo {
        name: b"mint".to_vec(),
        param_types: vec![
            MoveType::Primitive(MovePrimitiveType::Address),
            MoveType::Primitive(MovePrimitiveType::U64),
        ],
        return_types: vec![MoveType::Primitive(MovePrimitiveType::Bool)],
    };
    let sig = SoliditySignature::create_default_solidity_signature(&fun).unwrap();
    assert_eq!(sig.sig_name, b"mint".to_vec());
    assert_eq!(
        sig.para_types,
        vec![
            (prim(SolidityPrimitiveType::Address(false)), SignatureDataLocation::Memory),
            (prim(SolidityPrimitiveType::Uint(64)), SignatureDataLocation::Memory),
        ]
    );
    assert_eq!(
        sig.ret_types,
        vec![(prim(SolidityPrimitiveType::Bool), SignatureDataLocation::Memory)]
    );
    assert_eq!(sig.selector_signature(), b"mint(address,uint64)".to_vec());

    // A record parameter flattens to a tuple, rendered parenthesized.
    let with_record = MoveFunctionInfo {
        name: b"g".to_vec(),
        param_types: vec![MoveType::Struct {
            is_u256: false,
            is_string: false,
            fields: vec![
                MoveType::Primitive(MovePrimitiveType::Bool),
                MoveType::Primitive(MovePrimitiveType::U64),
            ],
        }],
        return_types: vec![],
    };
    let rsig = SoliditySignature::create_default_solidity_signature(&with_record).unwrap();
    assert_eq!(rsig.selector_signature(), b"g((bool,uint64))".to_vec());

    let bad = MoveFunctionInfo {
        name: b"broken".to_vec(),
        param_types: vec![MoveType::Unrepresentable],
        return_types: vec![],
    };
    assert_eq!(
        SoliditySignature::create_default_solidity_signature(&bad).unwrap_err(),
        InternalError::UnexpectedFieldType
    );
}
