//! The recursive-descent parser from type-fragment text to the type
//! algebra, specified exactly by a parallel specification-level parser.

use vstd::prelude::*;

use crate::errors::ParseError;
use crate::text::{
    copy_range, is_ws, parse_usize, range_contains, range_rfind, spec_parse_usize, spec_rfind,
    spec_trim, spec_trim_start, starts_with, bytes_eq, trim_bounds, trim_start_bound,
    lemma_rfind_unique, lemma_rfind_character,
};
use crate::ty::{
    int_width_ok, fixed_n_ok, static_bytes_ok, SolidityPrimitiveType, SolidityType,
};

verus! {

/// The keyword `bool`.
pub open spec fn kw_bool() -> Seq<u8> {
    seq![98, 111, 111, 108]
}

/// The keyword `uint`.
pub open spec fn kw_uint() -> Seq<u8> {
    seq![117, 105, 110, 116]
}

/// The keyword `int`.
pub open spec fn kw_int() -> Seq<u8> {
    seq![105, 110, 116]
}

/// The keyword `address`.
pub open spec fn kw_address() -> Seq<u8> {
    seq![97, 100, 100, 114, 101, 115, 115]
}

/// The keyword `payable`.
pub open spec fn kw_payable() -> Seq<u8> {
    seq![112, 97, 121, 97, 98, 108, 101]
}

/// The keyword `fixed`.
pub open spec fn kw_fixed() -> Seq<u8> {
    seq![102, 105, 120, 101, 100]
}

/// The keyword `ufixed`.
pub open spec fn kw_ufixed() -> Seq<u8> {
    seq![117, 102, 105, 120, 101, 100]
}

/// The keyword `bytes`.
pub open spec fn kw_bytes() -> Seq<u8> {
    seq![98, 121, 116, 101, 115]
}

/// The keyword `string`.
pub open spec fn kw_string() -> Seq<u8> {
    seq![115, 116, 114, 105, 110, 103]
}

/// Whether the text begins with one of the reserved simple-type
/// prefixes.
pub open spec fn spec_has_simple_prefix(s: Seq<u8>) -> bool {
    kw_uint().is_prefix_of(s) || kw_int().is_prefix_of(s) || kw_ufixed().is_prefix_of(s)
        || kw_fixed().is_prefix_of(s) || kw_bool().is_prefix_of(s) || kw_address().is_prefix_of(s)
        || kw_bytes().is_prefix_of(s) || kw_string().is_prefix_of(s)
}

/// A byte that may open an identifier: a letter, `_` or `$`.
pub open spec fn is_ident_start(b: u8) -> bool {
    (65 <= b <= 90) || (97 <= b <= 122) || b == 95 || b == 36
}

/// A byte that may continue an identifier: an opener or a digit.
pub open spec fn is_ident_char(b: u8) -> bool {
    is_ident_start(b) || (48 <= b <= 57)
}

/// The identifier grammar for type names.
pub open spec fn spec_is_ident(s: Seq<u8>) -> bool {
    s.len() > 0 && is_ident_start(s[0]) && (forall|i: int|
        1 <= i < s.len() ==> is_ident_char(#[trigger] s[i]))
}

/// One stage of the simple-type cascade: `None` means the stage does
/// not settle the text and the next stage is consulted.
pub open spec fn step_uint(s: Seq<u8>) -> Option<Result<SolidityType, ParseError>> {
    if kw_uint().is_prefix_of(s) {
        if s.len() > 4 {
            match spec_parse_usize(s.subrange(4, s.len() as int)) {
                None => Some(Err(ParseError::Malformed)),
                Some(n) => if int_width_ok(n) {
                    Some(Ok(SolidityType::Primitive(SolidityPrimitiveType::Uint(n))))
                } else {
                    None
                },
            }
        } else {
            Some(Ok(SolidityType::Primitive(SolidityPrimitiveType::Uint(256))))
        }
    } else {
        None
    }
}

/// The `int` stage, defaulting to width 256 without a suffix.
pub open spec fn step_int(s: Seq<u8>) -> Option<Result<SolidityType, ParseError>> {
    if kw_int().is_prefix_of(s) {
        if s.len() > 3 {
            match spec_parse_usize(s.subrange(3, s.len() as int)) {
                None => Some(Err(ParseError::Malformed)),
                Some(n) => if int_width_ok(n) {
                    Some(Ok(SolidityType::Primitive(SolidityPrimitiveType::Int(n))))
                } else {
                    None
                },
            }
        } else {
            Some(Ok(SolidityType::Primitive(SolidityPrimitiveType::Int(256))))
        }
    } else {
        None
    }
}

/// The `address` stage: bare `address`, or `address`, whitespace and
/// the word `payable`.
pub open spec fn step_address(s: Seq<u8>) -> Option<Result<SolidityType, ParseError>> {
    if kw_address().is_prefix_of(s) {
        if s.len() > 7 {
            if is_ws(s[7]) && spec_trim_start(s.subrange(7, s.len() as int)) == kw_payable() {
                Some(Ok(SolidityType::Primitive(SolidityPrimitiveType::Address(true))))
            } else {
                None
            }
        } else {
            Some(Ok(SolidityType::Primitive(SolidityPrimitiveType::Address(false))))
        }
    } else {
        None
    }
}

/// The shared shape of the two fixed-point stages: `<M>x<N>` after the
/// keyword, or the `(128, 18)` default with no suffix.
pub open spec fn step_fixed_kind(s: Seq<u8>, plen: int, unsigned: bool) -> Option<
    Result<SolidityType, ParseError>,
> {
    if s.len() > plen {
        let num = s.subrange(plen, s.len() as int);
        match spec_rfind(num, 120) {
            None => Some(Err(ParseError::Malformed)),
            Some(x) => match spec_parse_usize(num.subrange(0, x)) {
                None => Some(Err(ParseError::Malformed)),
                Some(m) => match spec_parse_usize(num.subrange(x + 1, num.len() as int)) {
                    None => Some(Err(ParseError::Malformed)),
                    Some(n) => if int_width_ok(m) && fixed_n_ok(n) {
                        if unsigned {
                            Some(
                                Ok(
                                    SolidityType::Primitive(
                                        SolidityPrimitiveType::Ufixed(m, n),
                                    ),
                                ),
                            )
                        } else {
                            Some(
                                Ok(SolidityType::Primitive(SolidityPrimitiveType::Fixed(m, n))),
                            )
                        }
                    } else {
                        None
                    },
                },
            },
        }
    } else {
        if unsigned {
            Some(Ok(SolidityType::Primitive(SolidityPrimitiveType::Ufixed(128, 18))))
        } else {
            Some(Ok(SolidityType::Primitive(SolidityPrimitiveType::Fixed(128, 18))))
        }
    }
}

/// The `fixed` stage.
pub open spec fn step_fixed(s: Seq<u8>) -> Option<Result<SolidityType, ParseError>> {
    if kw_fixed().is_prefix_of(s) {
        step_fixed_kind(s, 5, false)
    } else {
        None
    }
}

/// The `ufixed` stage.
pub open spec fn step_ufixed(s: Seq<u8>) -> Option<Result<SolidityType, ParseError>> {
    if kw_ufixed().is_prefix_of(s) {
        step_fixed_kind(s, 6, true)
    } else {
        None
    }
}

/// The `bytes` stage: dynamic `bytes`, or `bytes<N>` with `N` in 1..=32.
pub open spec fn step_bytes(s: Seq<u8>) -> Option<Result<SolidityType, ParseError>> {
    if kw_bytes().is_prefix_of(s) {
        if s.len() > 5 {
            match spec_parse_usize(s.subrange(5, s.len() as int)) {
                None => Some(Err(ParseError::Malformed)),
                Some(n) => if static_bytes_ok(n) {
                    Some(Ok(SolidityType::BytesStatic(n)))
                } else {
                    None
                },
            }
        } else {
            Some(Ok(SolidityType::Bytes))
        }
    } else {
        None
    }
}

/// What parsing a whitespace-free simple-type fragment yields: the
/// stages in the fixed order `bool`, `uint`, `int`, `address`, `fixed`,
/// `ufixed`, `bytes`, `string`; text no stage settles is a simple-type
/// diagnostic.
pub open spec fn spec_parse_simple(s: Seq<u8>) -> Result<SolidityType, ParseError> {
    if s == kw_bool() {
        Ok(SolidityType::Primitive(SolidityPrimitiveType::Bool))
    } else if step_uint(s) is Some {
        step_uint(s)->0
    } else if step_int(s) is Some {
        step_int(s)->0
    } else if step_address(s) is Some {
        step_address(s)->0
    } else if step_fixed(s) is Some {
        step_fixed(s)->0
    } else if step_ufixed(s) is Some {
        step_ufixed(s)->0
    } else if step_bytes(s) is Some {
        step_bytes(s)->0
    } else if s == kw_string() {
        Ok(SolidityType::SolidityString)
    } else {
        Err(ParseError::SimpleType)
    }
}

/// What parsing a type fragment yields: an array type when a bracket
/// occurs, a simple type after a reserved prefix, and otherwise a
/// diagnostic that distinguishes a legal-but-unsupported name from an
/// illegal one.
pub open spec fn spec_parse(s: Seq<u8>) -> Result<SolidityType, ParseError>
    decreases s.len(), 1int,
    via spec_parse_dec
{
    let t = spec_trim(s);
    if t.contains(91) {
        spec_parse_array_inner(t)
    } else if spec_has_simple_prefix(t) {
        spec_parse_simple(t)
    } else if spec_is_ident(t) {
        Err(ParseError::UnsupportedType)
    } else {
        Err(ParseError::IllegalTypeName)
    }
}

#[via_fn]
proof fn spec_parse_dec(s: Seq<u8>) {
    crate::text::lemma_trim_len(s);
}

/// What parsing an array fragment yields: the prefix before the last
/// `[` parses recursively as the element; the bracketed tail is either
/// empty (a dynamic array) or a length (a static array).
pub open spec fn spec_parse_array_inner(s: Seq<u8>) -> Result<SolidityType, ParseError>
    decreases s.len(), 0int,
    via spec_parse_array_inner_dec
{
    match spec_rfind(s, 91) {
        None => Err(ParseError::Malformed),
        Some(last) => match spec_parse(s.subrange(0, last)) {
            Err(e) => Err(e),
            Ok(elem) => {
                let br = spec_trim(s.subrange(last, s.len() as int));
                if br.len() >= 2 && br[0] == 91 && br[br.len() - 1] == 93 {
                    let inner = spec_trim(br.subrange(1, br.len() - 1));
                    if inner.len() == 0 {
                        Ok(SolidityType::DynamicArray(Box::new(elem)))
                    } else {
                        match spec_parse_usize(inner) {
                            Some(n) => Ok(SolidityType::StaticArray(Box::new(elem), n)),
                            None => Err(ParseError::Malformed),
                        }
                    }
                } else {
                    Err(ParseError::ArrayType)
                }
            },
        },
    }
}

#[via_fn]
proof fn spec_parse_array_inner_dec(s: Seq<u8>) {
    lemma_rfind_character(s, 91);
}

/// Decides `spec_has_simple_prefix`.
pub fn check_simple_type_prefix(ty_str: &[u8]) -> (r: bool)
    ensures
        r == spec_has_simple_prefix(ty_str@),
{
    let kw_uint_v: Vec<u8> = vec![117, 105, 110, 116];
    let kw_int_v: Vec<u8> = vec![105, 110, 116];
    let kw_ufixed_v: Vec<u8> = vec![117, 102, 105, 120, 101, 100];
    let kw_fixed_v: Vec<u8> = vec![102, 105, 120, 101, 100];
    let kw_bool_v: Vec<u8> = vec![98, 111, 111, 108];
    let kw_address_v: Vec<u8> = vec![97, 100, 100, 114, 101, 115, 115];
    let kw_bytes_v: Vec<u8> = vec![98, 121, 116, 101, 115];
    let kw_string_v: Vec<u8> = vec![115, 116, 114, 105, 110, 103];
    proof {
        assert(kw_uint_v@ =~= kw_uint());
        assert(kw_int_v@ =~= kw_int());
        assert(kw_ufixed_v@ =~= kw_ufixed());
        assert(kw_fixed_v@ =~= kw_fixed());
        assert(kw_bool_v@ =~= kw_bool());
        assert(kw_address_v@ =~= kw_address());
        assert(kw_bytes_v@ =~= kw_bytes());
        assert(kw_string_v@ =~= kw_string());
    }
    starts_with(ty_str, kw_uint_v.as_slice()) || starts_with(ty_str, kw_int_v.as_slice())
        || starts_with(ty_str, kw_ufixed_v.as_slice()) || starts_with(
        ty_str,
        kw_fixed_v.as_slice(),
    ) || starts_with(ty_str, kw_bool_v.as_slice()) || starts_with(
        ty_str,
        kw_address_v.as_slice(),
    ) || starts_with(ty_str, kw_bytes_v.as_slice()) || starts_with(ty_str, kw_string_v.as_slice())
}

/// Decides whether an integer width suffix is admissible.
pub fn check_type_int_range(num: usize) -> (r: bool)
    ensures
        r == int_width_ok(num),
{
    8 <= num && num <= 256 && num % 8 == 0
}

/// Decides whether a fixed-point fraction-digit count is admissible.
pub fn check_fixed_n_range(num: usize) -> (r: bool)
    ensures
        r == fixed_n_ok(num),
{
    num <= 80
}

/// Decides whether a static byte-string length is admissible.
pub fn check_static_bytes_range(num: usize) -> (r: bool)
    ensures
        r == static_bytes_ok(num),
{
    1 <= num && num <= 32
}

/// Decides `is_ident_start`.
pub fn ident_start_byte(b: u8) -> (r: bool)
    ensures
        r == is_ident_start(b),
{
    (65 <= b && b <= 90) || (97 <= b && b <= 122) || b == 95 || b == 36
}

/// Decides `is_ident_char`.
pub fn ident_char_byte(b: u8) -> (r: bool)
    ensures
        r == is_ident_char(b),
{
    ident_start_byte(b) || (48 <= b && b <= 57)
}

/// Decides `spec_is_ident`.
fn is_ident(s: &[u8]) -> (r: bool)
    ensures
        r == spec_is_ident(s@),
{
    if s.len() == 0 {
        return false;
    }
    let b0 = s[0];
    if !((65 <= b0 && b0 <= 90) || (97 <= b0 && b0 <= 122) || b0 == 95 || b0 == 36) {
        return false;
    }
    let mut i: usize = 1;
    while i < s.len()
        invariant
            1 <= i <= s@.len(),
            is_ident_start(s@[0]),
            forall|j: int| 1 <= j < i ==> is_ident_char(#[trigger] s@[j]),
        decreases s@.len() - i,
    {
        let b = s[i];
        if !((65 <= b && b <= 90) || (97 <= b && b <= 122) || b == 95 || b == 36 || (48 <= b && b
            <= 57)) {
            return false;
        }
        i = i + 1;
    }
    true
}

impl SolidityType {
    /// Parses a type fragment, exactly as `spec_parse` says.
    pub fn parse(ty_str: &[u8]) -> (r: Result<SolidityType, ParseError>)
        ensures
            r == spec_parse(ty_str@),
        decreases ty_str@.len(), 1int,
    {
        let (lo, hi) = trim_bounds(ty_str);
        let t = copy_range(ty_str, lo, hi);
        proof {
            assert(t@ == spec_trim(ty_str@));
        }
        if range_contains(t.as_slice(), 0, t.len(), 91) {
            proof {
                assert(t@.subrange(0, t@.len() as int) =~= t@);
            }
            Self::parse_array(t.as_slice())
        } else if check_simple_type_prefix(t.as_slice()) {
            proof {
                assert(t@.subrange(0, t@.len() as int) =~= t@);
            }
            Self::parse_simple_type(t.as_slice())
        } else {
            proof {
                assert(t@.subrange(0, t@.len() as int) =~= t@);
            }
            if is_ident(t.as_slice()) {
                Err(ParseError::UnsupportedType)
            } else {
                Err(ParseError::IllegalTypeName)
            }
        }
    }

    /// Parses a simple-type fragment, exactly as `spec_parse_simple`
    /// says. The parser hands it whitespace-trimmed text.
    pub fn parse_simple_type(ty_str: &[u8]) -> (r: Result<SolidityType, ParseError>)
        ensures
            r == spec_parse_simple(ty_str@),
    {
        let kw_bool_v: Vec<u8> = vec![98, 111, 111, 108];
        proof {
            assert(kw_bool_v@ =~= kw_bool());
        }
        if bytes_eq(ty_str, kw_bool_v.as_slice()) {
            return Ok(SolidityType::Primitive(SolidityPrimitiveType::Bool));
        }
        let kw_uint_v: Vec<u8> = vec![117, 105, 110, 116];
        proof {
            assert(kw_uint_v@ =~= kw_uint());
        }
        if starts_with(ty_str, kw_uint_v.as_slice()) {
            if ty_str.len() > 4 {
                let suffix = copy_range(ty_str, 4, ty_str.len());
                match parse_usize(suffix.as_slice()) {
                    None => {
                        return Err(ParseError::Malformed);
                    },
                    Some(n) => {
                        if check_type_int_range(n) {
                            return Ok(SolidityType::Primitive(SolidityPrimitiveType::Uint(n)));
                        }
                    },
                }
            } else {
                return Ok(SolidityType::Primitive(SolidityPrimitiveType::Uint(256)));
            }
        }
        let kw_int_v: Vec<u8> = vec![105, 110, 116];
        proof {
            assert(kw_int_v@ =~= kw_int());
        }
        if starts_with(ty_str, kw_int_v.as_slice()) {
            if ty_str.len() > 3 {
                let suffix = copy_range(ty_str, 3, ty_str.len());
                match parse_usize(suffix.as_slice()) {
                    None => {
                        return Err(ParseError::Malformed);
                    },
                    Some(n) => {
                        if check_type_int_range(n) {
                            return Ok(SolidityType::Primitive(SolidityPrimitiveType::Int(n)));
                        }
                    },
                }
            } else {
                return Ok(SolidityType::Primitive(SolidityPrimitiveType::Int(256)));
            }
        }
        let kw_address_v: Vec<u8> = vec![97, 100, 100, 114, 101, 115, 115];
        proof {
            assert(kw_address_v@ =~= kw_address());
        }
        if starts_with(ty_str, kw_address_v.as_slice()) {
            if ty_str.len() > 7 {
                let b7 = ty_str[7];
                if b7 == 32 || b7 == 9 || b7 == 10 || b7 == 12 || b7 == 13 {
                    let rest_lo = trim_start_bound(ty_str, 7, ty_str.len());
                    let rest = copy_range(ty_str, rest_lo, ty_str.len());
                    let kw_payable_v: Vec<u8> = vec![112, 97, 121, 97, 98, 108, 101];
                    proof {
                        assert(kw_payable_v@ =~= kw_payable());
                    }
                    if bytes_eq(rest.as_slice(), kw_payable_v.as_slice()) {
                        return Ok(
                            SolidityType::Primitive(SolidityPrimitiveType::Address(true)),
                        );
                    }
                }
            } else {
                return Ok(SolidityType::Primitive(SolidityPrimitiveType::Address(false)));
            }
        }
        let kw_fixed_v: Vec<u8> = vec![102, 105, 120, 101, 100];
        proof {
            assert(kw_fixed_v@ =~= kw_fixed());
        }
        if starts_with(ty_str, kw_fixed_v.as_slice()) {
            if let Some(settled) = Self::parse_fixed_suffix(ty_str, 5, false) {
                return settled;
            }
        }
        let kw_ufixed_v: Vec<u8> = vec![117, 102, 105, 120, 101, 100];
        proof {
            assert(kw_ufixed_v@ =~= kw_ufixed());
        }
        if starts_with(ty_str, kw_ufixed_v.as_slice()) {
            if let Some(settled) = Self::parse_fixed_suffix(ty_str, 6, true) {
                return settled;
            }
        }
        let kw_bytes_v: Vec<u8> = vec![98, 121, 116, 101, 115];
        proof {
            assert(kw_bytes_v@ =~= kw_bytes());
        }
        if starts_with(ty_str, kw_bytes_v.as_slice()) {
            if ty_str.len() > 5 {
                let suffix = copy_range(ty_str, 5, ty_str.len());
                match parse_usize(suffix.as_slice()) {
                    None => {
                        return Err(ParseError::Malformed);
                    },
                    Some(n) => {
                        if check_static_bytes_range(n) {
                            return Ok(SolidityType::BytesStatic(n));
                        }
                    },
                }
            } else {
                return Ok(SolidityType::Bytes);
            }
        }
        let kw_string_v: Vec<u8> = vec![115, 116, 114, 105, 110, 103];
        proof {
            assert(kw_string_v@ =~= kw_string());
        }
        if bytes_eq(ty_str, kw_string_v.as_slice()) {
            return Ok(SolidityType::SolidityString);
        }
        Err(ParseError::SimpleType)
    }

    /// Parses the `<M>x<N>` suffix of a fixed-point keyword at `plen`:
    /// `None` stands for the out-of-range fall-through, `Some` for a
    /// settled outcome, exactly as `step_fixed_kind` says.
    fn parse_fixed_suffix(ty_str: &[u8], plen: usize, unsigned: bool) -> (r: Option<
        Result<SolidityType, ParseError>,
    >)
        ensures
            r == step_fixed_kind(ty_str@, plen as int, unsigned),
    {
        if ty_str.len() <= plen {
            if unsigned {
                return Some(Ok(SolidityType::Primitive(SolidityPrimitiveType::Ufixed(128, 18))));
            } else {
                return Some(Ok(SolidityType::Primitive(SolidityPrimitiveType::Fixed(128, 18))));
            }
        }
        let num_lo = plen;
        let num_hi = ty_str.len();
        let ghost num = ty_str@.subrange(num_lo as int, num_hi as int);
        match range_rfind(ty_str, num_lo, num_hi, 120) {
            None => {
                proof {
                    lemma_rfind_character(num, 120);
                    if spec_rfind(num, 120) is Some {
                        let p = spec_rfind(num, 120)->0;
                        assert(ty_str@[num_lo + p] == 120);
                    }
                }
                Some(Err(ParseError::Malformed))
            },
            Some(x) => {
                proof {
                    lemma_rfind_unique(num, 120, x - num_lo);
                }
                let m_part = copy_range(ty_str, num_lo, x);
                let n_part = copy_range(ty_str, x + 1, num_hi);
                proof {
                    assert(m_part@ =~= num.subrange(0, x - num_lo));
                    assert(n_part@ =~= num.subrange(x - num_lo + 1, num.len() as int));
                }
                match parse_usize(m_part.as_slice()) {
                    None => Some(Err(ParseError::Malformed)),
                    Some(m) => match parse_usize(n_part.as_slice()) {
                        None => Some(Err(ParseError::Malformed)),
                        Some(n) => {
                            if check_type_int_range(m) && check_fixed_n_range(n) {
                                if unsigned {
                                    Some(
                                        Ok(
                                            SolidityType::Primitive(
                                                SolidityPrimitiveType::Ufixed(m, n),
                                            ),
                                        ),
                                    )
                                } else {
                                    Some(
                                        Ok(
                                            SolidityType::Primitive(
                                                SolidityPrimitiveType::Fixed(m, n),
                                            ),
                                        ),
                                    )
                                }
                            } else {
                                None
                            }
                        },
                    },
                }
            },
        }
    }

    /// Parses an array fragment, exactly as `spec_parse_array_inner`
    /// says: element before the last `[`, then the bracketed length.
    pub fn parse_array(ty_str: &[u8]) -> (r: Result<SolidityType, ParseError>)
        ensures
            r == spec_parse_array_inner(ty_str@),
        decreases ty_str@.len(), 0int,
    {
        match range_rfind(ty_str, 0, ty_str.len(), 91) {
            None => {
                proof {
                    lemma_rfind_character(ty_str@, 91);
                    if spec_rfind(ty_str@, 91) is Some {
                        let p = spec_rfind(ty_str@, 91)->0;
                        assert(ty_str@[p] == 91);
                    }
                }
                Err(ParseError::Malformed)
            },
            Some(last) => {
                proof {
                    lemma_rfind_unique(ty_str@, 91, last as int);
                }
                let prefix = copy_range(ty_str, 0, last);
                let elem = match Self::parse(prefix.as_slice()) {
                    Ok(e) => e,
                    Err(e) => {
                        return Err(e);
                    },
                };
                let (br_lo, br_hi) = crate::text::trim_range(ty_str, last, ty_str.len());
                let ghost br = spec_trim(ty_str@.subrange(last as int, ty_str@.len() as int));
                proof {
                    assert(br == ty_str@.subrange(br_lo as int, br_hi as int));
                }
                if br_hi - br_lo >= 2 && ty_str[br_lo] == 91 && ty_str[br_hi - 1] == 93 {
                    proof {
                        assert(br[0] == 91);
                        assert(br[br.len() - 1] == 93);
                    }
                    let (in_lo, in_hi) = crate::text::trim_range(ty_str, br_lo + 1, br_hi - 1);
                    let ghost inner = spec_trim(br.subrange(1, br.len() - 1));
                    proof {
                        assert(br.subrange(1, br.len() - 1) =~= ty_str@.subrange(
                            br_lo + 1,
                            br_hi - 1,
                        ));
                    }
                    let inner_v = copy_range(ty_str, in_lo, in_hi);
                    if inner_v.len() == 0 {
                        proof {
                            assert(inner.len() == 0);
                        }
                        Ok(SolidityType::DynamicArray(Box::new(elem)))
                    } else {
                        proof {
                            assert(inner_v@ == inner);
                        }
                        match parse_usize(inner_v.as_slice()) {
                            Some(n) => Ok(SolidityType::StaticArray(Box::new(elem), n)),
                            None => Err(ParseError::Malformed),
                        }
                    }
                } else {
                    Err(ParseError::ArrayType)
                }
            },
        }
    }
}

} // verus!
