//! Laws relating the renderer and the parser: canonical rendering is
//! parser-stable, and the `uint` width rule is exactly the parser's.

use vstd::prelude::*;

use crate::errors::ParseError;
use crate::parse::{
    kw_address, kw_bool, kw_bytes, kw_fixed, kw_int, kw_string, kw_ufixed, kw_uint,
    spec_parse, spec_parse_array_inner, spec_parse_simple, step_address, step_bytes, step_fixed,
    step_int, step_ufixed, step_uint,
};
use crate::render::{spec_canon, spec_canon_prim};
use crate::text::{
    is_ws, lemma_dec_digits, lemma_parse_of_dec, lemma_rfind_unique, lemma_trim_id, spec_dec,
    spec_trim,
};
use crate::ty::{
    fixed_n_ok, int_width_ok, static_bytes_ok, SolidityPrimitiveType, SolidityType,
};

verus! {

/// A type the parser itself can construct: well-formed numeric
/// parameters, no tuple (the grammar has no tuple syntax), and no
/// payable address (which renders as plain `address`).
pub open spec fn parser_canonical(t: SolidityType) -> bool
    decreases t,
{
    match t {
        SolidityType::Primitive(p) => prim_canonical(p),
        SolidityType::Tuple(_) => false,
        SolidityType::DynamicArray(e) => parser_canonical(*e),
        SolidityType::StaticArray(e, _) => parser_canonical(*e),
        SolidityType::SolidityString => true,
        SolidityType::Bytes => true,
        SolidityType::BytesStatic(n) => static_bytes_ok(n),
    }
}

/// A primitive the parser can construct from its own rendering.
pub open spec fn prim_canonical(p: SolidityPrimitiveType) -> bool {
    match p {
        SolidityPrimitiveType::Bool => true,
        SolidityPrimitiveType::Uint(n) => int_width_ok(n),
        SolidityPrimitiveType::Int(n) => int_width_ok(n),
        SolidityPrimitiveType::Fixed(m, n) => int_width_ok(m) && fixed_n_ok(n),
        SolidityPrimitiveType::Ufixed(m, n) => int_width_ok(m) && fixed_n_ok(n),
        SolidityPrimitiveType::Address(payable) => !payable,
    }
}

/// A byte a primitive rendering may hold: not whitespace, not a
/// bracket.
pub open spec fn plain_byte(b: u8) -> bool {
    !is_ws(b) && b != 91 && b != 93
}

/// Primitive, string and byte-string renderings hold plain bytes only.
proof fn lemma_canon_prim_plain(p: SolidityPrimitiveType)
    ensures
        forall|i: int| 0 <= i < spec_canon_prim(p).len() ==> plain_byte(#[trigger] spec_canon_prim(p)[i]),
{
    match p {
        SolidityPrimitiveType::Uint(n) => {
            lemma_dec_digits(n as nat);
        },
        SolidityPrimitiveType::Int(n) => {
            lemma_dec_digits(n as nat);
        },
        SolidityPrimitiveType::Fixed(m, n) => {
            lemma_dec_digits(m as nat);
            lemma_dec_digits(n as nat);
        },
        SolidityPrimitiveType::Ufixed(m, n) => {
            lemma_dec_digits(m as nat);
            lemma_dec_digits(n as nat);
        },
        _ => {},
    }
}

/// No parser-canonical rendering holds whitespace, and its brackets,
/// if any, come from array syntax alone: the rendering of a non-array
/// is all plain bytes.
proof fn lemma_canon_plain(t: SolidityType)
    requires
        parser_canonical(t),
    ensures
        forall|i: int| 0 <= i < spec_canon(t).len() ==> !is_ws(#[trigger] spec_canon(t)[i]),
        (t is Primitive || t is SolidityString || t is Bytes || t is BytesStatic) ==> forall|i: int|
            0 <= i < spec_canon(t).len() ==> plain_byte(#[trigger] spec_canon(t)[i]),
    decreases t,
{
    let s = spec_canon(t);
    match t {
        SolidityType::Primitive(p) => {
            lemma_canon_prim_plain(p);
            assert(s == spec_canon_prim(p));
            assert forall|i: int| 0 <= i < s.len() implies !is_ws(#[trigger] s[i]) by {
                assert(plain_byte(spec_canon_prim(p)[i]));
            }
        },
        SolidityType::BytesStatic(n) => {
            lemma_dec_digits(n as nat);
            assert forall|i: int| 0 <= i < s.len() implies plain_byte(#[trigger] s[i]) by {
                if i >= 5 {
                    assert(crate::text::is_digit(spec_dec(n as nat)[i - 5]));
                }
            }
            assert forall|i: int| 0 <= i < s.len() implies !is_ws(#[trigger] s[i]) by {
                assert(plain_byte(s[i]));
            }
        },
        SolidityType::DynamicArray(e) => {
            lemma_canon_plain(*e);
            let ce = spec_canon(*e);
            assert forall|i: int| 0 <= i < s.len() implies !is_ws(#[trigger] s[i]) by {
                if i < ce.len() {
                    assert(s[i] == ce[i]);
                    assert(!is_ws(ce[i]));
                }
            }
        },
        SolidityType::StaticArray(e, n) => {
            lemma_canon_plain(*e);
            lemma_dec_digits(n as nat);
            let ce = spec_canon(*e);
            let dn = spec_dec(n as nat);
            assert forall|i: int| 0 <= i < s.len() implies !is_ws(#[trigger] s[i]) by {
                if i < ce.len() {
                    assert(s[i] == ce[i]);
                    assert(!is_ws(ce[i]));
                } else if ce.len() + 1 <= i < ce.len() + 1 + dn.len() {
                    assert(s[i] == dn[i - ce.len() - 1]);
                    assert(crate::text::is_digit(dn[i - ce.len() - 1]));
                }
            }
        },
        SolidityType::SolidityString => {
            assert forall|i: int| 0 <= i < s.len() implies plain_byte(#[trigger] s[i]) by {}
            assert forall|i: int| 0 <= i < s.len() implies !is_ws(#[trigger] s[i]) by {
                assert(plain_byte(s[i]));
            }
        },
        SolidityType::Bytes => {
            assert forall|i: int| 0 <= i < s.len() implies plain_byte(#[trigger] s[i]) by {}
            assert forall|i: int| 0 <= i < s.len() implies !is_ws(#[trigger] s[i]) by {
                assert(plain_byte(s[i]));
            }
        },
        _ => {},
    }
}

/// The simple-type renderings round-trip through the simple-type
/// parser.
#[verifier::rlimit(60)]
proof fn lemma_simple_roundtrip(t: SolidityType)
    requires
        parser_canonical(t),
        t is Primitive || t is SolidityString || t is Bytes || t is BytesStatic,
    ensures
        spec_parse_simple(spec_canon(t)) == Ok::<SolidityType, ParseError>(t),
{
    let s = spec_canon(t);
    match t {
        SolidityType::Primitive(p) => {
            match p {
                SolidityPrimitiveType::Bool => {
                    assert(s =~= kw_bool());
                },
                SolidityPrimitiveType::Uint(n) => {
                    lemma_dec_digits(n as nat);
                    assert(s != kw_bool());
                    assert(kw_uint().is_prefix_of(s)) by {
                        assert(kw_uint() =~= s.subrange(0, 4));
                    }
                    assert(s.subrange(4, s.len() as int) =~= spec_dec(n as nat));
                    lemma_parse_of_dec(n);
                    assert(step_uint(s) == Some(
                        Ok::<SolidityType, ParseError>(
                            SolidityType::Primitive(SolidityPrimitiveType::Uint(n)),
                        ),
                    ));
                },
                SolidityPrimitiveType::Int(n) => {
                    lemma_dec_digits(n as nat);
                    assert(s != kw_bool());
                    assert(s[0] == 105);
                    assert(!kw_uint().is_prefix_of(s));
                    assert(kw_int().is_prefix_of(s)) by {
                        assert(kw_int() =~= s.subrange(0, 3));
                    }
                    assert(s.subrange(3, s.len() as int) =~= spec_dec(n as nat));
                    lemma_parse_of_dec(n);
                    assert(step_int(s) == Some(
                        Ok::<SolidityType, ParseError>(
                            SolidityType::Primitive(SolidityPrimitiveType::Int(n)),
                        ),
                    ));
                },
                SolidityPrimitiveType::Address(_) => {
                    assert(s =~= kw_address());
                    assert(s != kw_bool());
                    assert(s[0] == 97);
                    assert(!kw_uint().is_prefix_of(s));
                    assert(!kw_int().is_prefix_of(s));
                    assert(kw_address().is_prefix_of(s));
                    assert(s.len() == 7);
                    assert(step_address(s) == Some(
                        Ok::<SolidityType, ParseError>(
                            SolidityType::Primitive(SolidityPrimitiveType::Address(false)),
                        ),
                    ));
                },
                SolidityPrimitiveType::Fixed(m, n) => {
                    lemma_dec_digits(m as nat);
                    lemma_dec_digits(n as nat);
                    assert(s != kw_bool());
                    assert(s[0] == 102);
                    assert(!kw_uint().is_prefix_of(s));
                    assert(!kw_int().is_prefix_of(s));
                    assert(!kw_address().is_prefix_of(s));
                    assert(kw_fixed().is_prefix_of(s)) by {
                        assert(kw_fixed() =~= s.subrange(0, 5));
                    }
                    let num = s.subrange(5, s.len() as int);
                    let dm = spec_dec(m as nat);
                    let dn = spec_dec(n as nat);
                    assert(num =~= dm + seq![120u8] + dn);
                    lemma_rfind_unique(num, 120, dm.len() as int);
                    assert(num.subrange(0, dm.len() as int) =~= dm);
                    assert(num.subrange(dm.len() as int + 1, num.len() as int) =~= dn);
                    lemma_parse_of_dec(m);
                    lemma_parse_of_dec(n);
                    assert(step_fixed(s) == Some(
                        Ok::<SolidityType, ParseError>(
                            SolidityType::Primitive(SolidityPrimitiveType::Fixed(m, n)),
                        ),
                    ));
                },
                SolidityPrimitiveType::Ufixed(m, n) => {
                    lemma_dec_digits(m as nat);
                    lemma_dec_digits(n as nat);
                    assert(s != kw_bool());
                    assert(s[0] == 117 && s[1] == 102);
                    assert(!kw_uint().is_prefix_of(s));
                    assert(!kw_int().is_prefix_of(s));
                    assert(!kw_address().is_prefix_of(s));
                    assert(!kw_fixed().is_prefix_of(s));
                    assert(kw_ufixed().is_prefix_of(s)) by {
                        assert(kw_ufixed() =~= s.subrange(0, 6));
                    }
                    let num = s.subrange(6, s.len() as int);
                    let dm = spec_dec(m as nat);
                    let dn = spec_dec(n as nat);
                    assert(num =~= dm + seq![120u8] + dn);
                    lemma_rfind_unique(num, 120, dm.len() as int);
                    assert(num.subrange(0, dm.len() as int) =~= dm);
                    assert(num.subrange(dm.len() as int + 1, num.len() as int) =~= dn);
                    lemma_parse_of_dec(m);
                    lemma_parse_of_dec(n);
                    assert(step_ufixed(s) == Some(
                        Ok::<SolidityType, ParseError>(
                            SolidityType::Primitive(SolidityPrimitiveType::Ufixed(m, n)),
                        ),
                    ));
                },
            }
        },
        SolidityType::SolidityString => {
            assert(s =~= kw_string());
            assert(s != kw_bool());
            assert(s[0] == 115);
            assert(!kw_uint().is_prefix_of(s));
            assert(!kw_int().is_prefix_of(s));
            assert(!kw_address().is_prefix_of(s));
            assert(!kw_fixed().is_prefix_of(s));
            assert(!kw_ufixed().is_prefix_of(s));
            assert(!kw_bytes().is_prefix_of(s));
        },
        SolidityType::Bytes => {
            assert(s =~= kw_bytes());
            assert(s != kw_bool());
            assert(s[0] == 98 && s[1] == 121);
            assert(!kw_uint().is_prefix_of(s));
            assert(!kw_int().is_prefix_of(s));
            assert(!kw_address().is_prefix_of(s));
            assert(!kw_fixed().is_prefix_of(s));
            assert(!kw_ufixed().is_prefix_of(s));
            assert(kw_bytes().is_prefix_of(s));
            assert(s.len() == 5);
        },
        SolidityType::BytesStatic(n) => {
            lemma_dec_digits(n as nat);
            assert(s != kw_bool());
            assert(s[0] == 98 && s[1] == 121);
            assert(!kw_uint().is_prefix_of(s));
            assert(!kw_int().is_prefix_of(s));
            assert(!kw_address().is_prefix_of(s));
            assert(!kw_fixed().is_prefix_of(s));
            assert(!kw_ufixed().is_prefix_of(s));
            assert(kw_bytes().is_prefix_of(s)) by {
                assert(kw_bytes() =~= s.subrange(0, 5));
            }
            assert(s.subrange(5, s.len() as int) =~= spec_dec(n as nat));
            lemma_parse_of_dec(n);
            assert(step_bytes(s) == Some(
                Ok::<SolidityType, ParseError>(SolidityType::BytesStatic(n)),
            ));
        },
        _ => {},
    }
}

/// Canonical rendering is parser-stable: every type the parser can
/// construct parses back from its own canonical rendering.
#[verifier::rlimit(100)]
pub proof fn lemma_parse_canonical_roundtrip(t: SolidityType)
    requires
        parser_canonical(t),
    ensures
        spec_parse(spec_canon(t)) == Ok::<SolidityType, ParseError>(t),
    decreases t,
{
    let s = spec_canon(t);
    lemma_canon_plain(t);
    assert(s.len() > 0 ==> (!is_ws(s[0]) && !is_ws(s[s.len() - 1])));
    lemma_trim_id(s);
    assert(spec_trim(s) == s);
    match t {
        SolidityType::DynamicArray(e) => {
            let ce = spec_canon(*e);
            let cl = ce.len() as int;
            assert(s =~= ce + seq![91u8, 93u8]);
            assert(s[cl] == 91);
            assert(s.contains(91));
            assert(s[cl + 1] == 93);
            lemma_rfind_unique(s, 91, cl);
            assert(s.subrange(0, cl) =~= ce);
            lemma_parse_canonical_roundtrip(*e);
            let br_raw = s.subrange(cl, s.len() as int);
            assert(br_raw =~= seq![91u8, 93u8]);
            lemma_trim_id(br_raw);
            let br = spec_trim(br_raw);
            assert(br.len() == 2 && br[0] == 91 && br[1] == 93);
            let inner_raw = br.subrange(1, br.len() - 1);
            assert(inner_raw =~= Seq::<u8>::empty());
            lemma_trim_id(inner_raw);
            assert(spec_parse_array_inner(s) == Ok::<SolidityType, ParseError>(t));
        },
        SolidityType::StaticArray(e, n) => {
            let ce = spec_canon(*e);
            let cl = ce.len() as int;
            let dn = spec_dec(n as nat);
            lemma_dec_digits(n as nat);
            assert(s =~= ce + seq![91u8] + dn + seq![93u8]);
            assert(s[cl] == 91);
            assert(s.contains(91));
            lemma_rfind_unique(s, 91, cl);
            assert(s.subrange(0, cl) =~= ce);
            lemma_parse_canonical_roundtrip(*e);
            let br_raw = s.subrange(cl, s.len() as int);
            assert(br_raw =~= seq![91u8] + dn + seq![93u8]);
            lemma_trim_id(br_raw);
            let br = spec_trim(br_raw);
            assert(br.len() >= 2 && br[0] == 91 && br[br.len() - 1] == 93);
            let inner_raw = br.subrange(1, br.len() - 1);
            assert(inner_raw =~= dn);
            lemma_trim_id(inner_raw);
            lemma_parse_of_dec(n);
            assert(spec_parse_array_inner(s) == Ok::<SolidityType, ParseError>(t));
        },
        _ => {
            assert(!s.contains(91)) by {
                if s.contains(91) {
                    let i = choose|i: int| 0 <= i < s.len() && s[i] == 91;
                    assert(plain_byte(s[i]));
                }
            }
            lemma_simple_roundtrip(t);
            assert(crate::parse::spec_has_simple_prefix(s)) by {
                match t {
                    SolidityType::Primitive(p) => {
                        match p {
                            SolidityPrimitiveType::Bool => {
                                assert(kw_bool() =~= s.subrange(0, 4));
                            },
                            SolidityPrimitiveType::Uint(_) => {
                                assert(kw_uint() =~= s.subrange(0, 4));
                            },
                            SolidityPrimitiveType::Int(_) => {
                                assert(kw_int() =~= s.subrange(0, 3));
                            },
                            SolidityPrimitiveType::Fixed(_, _) => {
                                assert(kw_fixed() =~= s.subrange(0, 5));
                            },
                            SolidityPrimitiveType::Ufixed(_, _) => {
                                assert(kw_ufixed() =~= s.subrange(0, 6));
                            },
                            SolidityPrimitiveType::Address(_) => {
                                assert(kw_address() =~= s.subrange(0, 7));
                            },
                        }
                    },
                    SolidityType::SolidityString => {
                        assert(kw_string() =~= s.subrange(0, 6));
                    },
                    _ => {
                        assert(kw_bytes() =~= s.subrange(0, 5));
                    },
                }
            }
        },
    }
}

/// The one rendering the parser cannot take back: a payable address
/// renders as plain `address`, so it parses to the non-payable form.
pub proof fn lemma_payable_address_renders_plain()
    ensures
        spec_parse(spec_canon(SolidityType::Primitive(SolidityPrimitiveType::Address(true))))
            == Ok::<SolidityType, ParseError>(
            SolidityType::Primitive(SolidityPrimitiveType::Address(false)),
        ),
{
    let payable = SolidityType::Primitive(SolidityPrimitiveType::Address(true));
    let plain = SolidityType::Primitive(SolidityPrimitiveType::Address(false));
    assert(spec_canon(payable) == spec_canon(plain));
    lemma_parse_canonical_roundtrip(plain);
}

/// The `uint` width rule: `uint` followed by the numeral of `n` parses
/// exactly when `n` is a multiple of 8 within 8..=256, to `uint<n>`;
/// any other `n` draws the simple-type range diagnostic.
pub proof fn lemma_uint_width_invariant(n: usize)
    ensures
        spec_parse(kw_uint() + spec_dec(n as nat)) == if int_width_ok(n) {
            Ok::<SolidityType, ParseError>(
                SolidityType::Primitive(SolidityPrimitiveType::Uint(n)),
            )
        } else {
            Err::<SolidityType, ParseError>(ParseError::SimpleType)
        },
{
    let s = kw_uint() + spec_dec(n as nat);
    lemma_dec_digits(n as nat);
    assert(s.len() > 0 && !is_ws(s[0]) && !is_ws(s[s.len() - 1]));
    lemma_trim_id(s);
    assert(!s.contains(91)) by {
        if s.contains(91) {
            let i = choose|i: int| 0 <= i < s.len() && s[i] == 91;
            assert(i >= 4 ==> crate::text::is_digit(spec_dec(n as nat)[i - 4]));
        }
    }
    assert(kw_uint().is_prefix_of(s)) by {
        assert(kw_uint() =~= s.subrange(0, 4));
    }
    assert(s != kw_bool());
    assert(s.subrange(4, s.len() as int) =~= spec_dec(n as nat));
    lemma_parse_of_dec(n);
    if !int_width_ok(n) {
        assert(step_uint(s) is None);
        assert(s[0] == 117);
        assert(!kw_int().is_prefix_of(s));
        assert(!kw_address().is_prefix_of(s));
        assert(!kw_fixed().is_prefix_of(s));
        assert(!kw_ufixed().is_prefix_of(s)) by {
            if kw_ufixed().is_prefix_of(s) {
                assert(s[1] == 102);
            }
        }
        assert(!kw_bytes().is_prefix_of(s));
        assert(s != kw_string());
    }
}

} // verus!
