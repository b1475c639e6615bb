//! Function signatures: the parser for full signature strings, the
//! selector-input rendering, and the parameter extraction they share.

use vstd::prelude::*;

use crate::errors::ParseError;
use crate::parse::{is_ident_char, is_ident_start, spec_parse};
use crate::render::{lemma_join_snoc, render_joined, spec_canon_join};
use crate::text::{
    bytes_eq, copy_range, ends_with, lemma_find_unique, range_find, spec_find, spec_trim,
    spec_trim_start, starts_with, trim_bounds,
};
use crate::ty::{SignatureDataLocation, SolidityType};

verus! {

/// The keyword `memory`.
pub open spec fn kw_memory() -> Seq<u8> {
    seq![109, 101, 109, 111, 114, 121]
}

/// The keyword `calldata`.
pub open spec fn kw_calldata() -> Seq<u8> {
    seq![99, 97, 108, 108, 100, 97, 116, 97]
}

/// The keyword `returns`.
pub open spec fn kw_returns() -> Seq<u8> {
    seq![114, 101, 116, 117, 114, 110, 115]
}

/// A Solidity function signature: name, parameters, returns, each
/// parameter with its data location. Ordering is the selector and
/// encoding order.
#[derive(Debug, Clone)]
pub struct SoliditySignature {
    pub sig_name: Vec<u8>,
    pub para_types: Vec<(SolidityType, SignatureDataLocation)>,
    pub ret_types: Vec<(SolidityType, SignatureDataLocation)>,
}

/// The mathematical shape of a signature.
pub struct SignatureModel {
    pub sig_name: Seq<u8>,
    pub para_types: Seq<(SolidityType, SignatureDataLocation)>,
    pub ret_types: Seq<(SolidityType, SignatureDataLocation)>,
}

impl View for SoliditySignature {
    type V = SignatureModel;

    open spec fn view(&self) -> SignatureModel {
        SignatureModel {
            sig_name: self.sig_name@,
            para_types: self.para_types@,
            ret_types: self.ret_types@,
        }
    }
}

/// What parsing one parameter fragment yields: the fragment is trimmed,
/// a trailing `memory` is stripped and recorded (and rejected on a value
/// type), a trailing `calldata` is rejected as unsupported, and the rest
/// goes to the type parser.
pub open spec fn spec_param_one(s: Seq<u8>) -> Result<
    (SolidityType, SignatureDataLocation),
    ParseError,
> {
    let p = spec_trim(s);
    if p.len() == 0 {
        Err(ParseError::Malformed)
    } else if kw_memory().is_suffix_of(p) {
        match spec_parse(p.subrange(0, p.len() - 6)) {
            Err(e) => Err(e),
            Ok(t) => if t.spec_is_value_type() {
                Err(ParseError::LocationOnValueType)
            } else {
                Ok((t, SignatureDataLocation::Memory))
            },
        }
    } else if kw_calldata().is_suffix_of(p) {
        Err(ParseError::CalldataUnsupported)
    } else {
        match spec_parse(p) {
            Err(e) => Err(e),
            Ok(t) => Ok((t, SignatureDataLocation::Memory)),
        }
    }
}

/// What parsing a comma-separated parameter list yields, one fragment
/// per comma, each handed to `spec_param_one`.
pub open spec fn spec_params(s: Seq<u8>) -> Result<
    Seq<(SolidityType, SignatureDataLocation)>,
    ParseError,
>
    decreases s.len(),
    via spec_params_dec
{
    match spec_find(s, 44) {
        None => match spec_param_one(s) {
            Err(e) => Err(e),
            Ok(p) => Ok(seq![p]),
        },
        Some(c) => match spec_param_one(s.subrange(0, c)) {
            Err(e) => Err(e),
            Ok(p) => match spec_params(s.subrange(c + 1, s.len() as int)) {
                Err(e) => Err(e),
                Ok(rest) => Ok(seq![p] + rest),
            },
        },
    }
}

#[via_fn]
proof fn spec_params_dec(s: Seq<u8>) {
    crate::text::lemma_find_character(s, 44);
}

/// What extracting a parameter list from raw argument text yields: the
/// empty list for blank text, else the comma-split parse.
pub open spec fn spec_extract_params(s: Seq<u8>) -> Result<
    Seq<(SolidityType, SignatureDataLocation)>,
    ParseError,
> {
    let t = spec_trim(s);
    if t.len() == 0 {
        Ok(Seq::empty())
    } else {
        spec_params(t)
    }
}

/// The length of the identifier run that opens `s` from position 1,
/// given `s[0]` opened one.
pub open spec fn spec_ident_run(s: Seq<u8>, i: int) -> int
    decreases s.len() - i,
{
    if 0 <= i < s.len() && is_ident_char(s[i]) {
        spec_ident_run(s, i + 1)
    } else {
        i
    }
}

/// What parsing a full signature string yields, over the grammar
/// `name "(" params ")" [ "returns" "(" params ")" ]` with
/// insignificant whitespace between tokens.
pub open spec fn spec_parse_signature(s: Seq<u8>) -> Result<SignatureModel, ParseError> {
    let t = spec_trim(s);
    if t.len() == 0 || !is_ident_start(t[0]) {
        Err(ParseError::Malformed)
    } else {
        let name_len = spec_ident_run(t, 1);
        let rest = spec_trim_start(t.subrange(name_len, t.len() as int));
        if rest.len() == 0 || rest[0] != 40 {
            Err(ParseError::Malformed)
        } else {
            match spec_find(rest, 41) {
                None => Err(ParseError::Malformed),
                Some(rp) => {
                    let args = rest.subrange(1, rp);
                    let tail = spec_trim(rest.subrange(rp + 1, rest.len() as int));
                    let ret_src: Result<Seq<u8>, ParseError> = if tail.len() == 0 {
                        Ok(Seq::empty())
                    } else if kw_returns().is_prefix_of(tail) {
                        let after = spec_trim(tail.subrange(7, tail.len() as int));
                        if after.len() >= 2 && after[0] == 40 && after[after.len() - 1] == 41 {
                            Ok(after.subrange(1, after.len() - 1))
                        } else {
                            Err(ParseError::ReturnClause)
                        }
                    } else {
                        Err(ParseError::ReturnClause)
                    };
                    match ret_src {
                        Err(e) => Err(e),
                        Ok(rsrc) => match spec_extract_params(args) {
                            Err(e) => Err(e),
                            Ok(ps) => match spec_extract_params(rsrc) {
                                Err(e) => Err(e),
                                Ok(rs) => Ok(
                                    SignatureModel {
                                        sig_name: t.subrange(0, name_len),
                                        para_types: ps,
                                        ret_types: rs,
                                    },
                                ),
                            },
                        },
                    }
                },
            }
        }
    }
}

/// The parameter types of a signature, in order, locations dropped.
pub open spec fn spec_sig_types(ps: Seq<(SolidityType, SignatureDataLocation)>) -> Seq<
    SolidityType,
> {
    ps.map_values(|p: (SolidityType, SignatureDataLocation)| p.0)
}

/// The selector-input string of a signature: the name and the
/// parenthesized, comma-joined canonical parameter renderings. Return
/// types do not take part.
pub open spec fn spec_selector(m: SignatureModel) -> Seq<u8> {
    m.sig_name + seq![40u8] + spec_canon_join(spec_sig_types(m.para_types), 44) + seq![41u8]
}

/// Parses one parameter fragment `s[lo..hi]`, exactly as
/// `spec_param_one` says.
fn parse_param_one(s: &[u8], lo: usize, hi: usize) -> (r: Result<
    (SolidityType, SignatureDataLocation),
    ParseError,
>)
    requires
        lo <= hi <= s@.len(),
    ensures
        r == spec_param_one(s@.subrange(lo as int, hi as int)),
{
    let w = copy_range(s, lo, hi);
    let (plo, phi) = trim_bounds(w.as_slice());
    let p = copy_range(w.as_slice(), plo, phi);
    proof {
        assert(p@ == spec_trim(s@.subrange(lo as int, hi as int)));
    }
    if p.len() == 0 {
        return Err(ParseError::Malformed);
    }
    let kw_memory_v: Vec<u8> = vec![109, 101, 109, 111, 114, 121];
    proof {
        assert(kw_memory_v@ =~= kw_memory());
    }
    if ends_with(p.as_slice(), kw_memory_v.as_slice()) {
        let q = copy_range(p.as_slice(), 0, p.len() - 6);
        proof {
            assert(q@ =~= p@.subrange(0, p@.len() - 6));
        }
        match SolidityType::parse(q.as_slice()) {
            Err(e) => Err(e),
            Ok(t) => {
                if t.is_value_type() {
                    Err(ParseError::LocationOnValueType)
                } else {
                    Ok((t, SignatureDataLocation::Memory))
                }
            },
        }
    } else {
        let kw_calldata_v: Vec<u8> = vec![99, 97, 108, 108, 100, 97, 116, 97];
        proof {
            assert(kw_calldata_v@ =~= kw_calldata());
        }
        if ends_with(p.as_slice(), kw_calldata_v.as_slice()) {
            Err(ParseError::CalldataUnsupported)
        } else {
            match SolidityType::parse(p.as_slice()) {
                Err(e) => Err(e),
                Ok(t) => Ok((t, SignatureDataLocation::Memory)),
            }
        }
    }
}

/// Parses the comma-separated parameters of `s[start..]`, exactly as
/// `spec_params` says.
fn parse_params_from(s: &[u8], start: usize) -> (r: Result<
    Vec<(SolidityType, SignatureDataLocation)>,
    ParseError,
>)
    requires
        start <= s@.len(),
    ensures
        match spec_params(s@.subrange(start as int, s@.len() as int)) {
            Ok(sq) => r matches Ok(v) && v@ == sq,
            Err(e) => r == Err::<Vec<(SolidityType, SignatureDataLocation)>, ParseError>(e),
        },
    decreases s@.len() - start,
{
    let ghost w = s@.subrange(start as int, s@.len() as int);
    match range_find(s, start, s.len(), 44) {
        None => {
            proof {
                crate::text::lemma_find_character(w, 44);
                if spec_find(w, 44) is Some {
                    let p = spec_find(w, 44)->0;
                    assert(s@[start + p] == 44);
                }
                assert(w.subrange(0, w.len() as int) =~= w);
            }
            match parse_param_one(s, start, s.len()) {
                Err(e) => Err(e),
                Ok(p) => {
                    let mut v: Vec<(SolidityType, SignatureDataLocation)> = Vec::new();
                    v.push(p);
                    proof {
                        assert(v@ =~= seq![p]);
                    }
                    Ok(v)
                },
            }
        },
        Some(c) => {
            proof {
                lemma_find_unique(w, 44, c - start);
                assert(w.subrange(0, c - start) =~= s@.subrange(start as int, c as int));
                assert(w.subrange(c - start + 1, w.len() as int) =~= s@.subrange(
                    c + 1,
                    s@.len() as int,
                ));
            }
            match parse_param_one(s, start, c) {
                Err(e) => Err(e),
                Ok(p) => {
                    match parse_params_from(s, c + 1) {
                        Err(e) => Err(e),
                        Ok(mut rest) => {
                            let mut v: Vec<(SolidityType, SignatureDataLocation)> = Vec::new();
                            v.push(p);
                            v.append(&mut rest);
                            proof {
                                assert(v@ =~= seq![p] + spec_params(
                                    s@.subrange(c + 1, s@.len() as int),
                                )->Ok_0);
                            }
                            Ok(v)
                        },
                    }
                },
            }
        },
    }
}

impl SoliditySignature {
    /// Extracts the (type, location) pairs of a raw parameter list,
    /// exactly as `spec_extract_params` says.
    pub fn extract_para_type_str(args: &[u8]) -> (r: Result<
        Vec<(SolidityType, SignatureDataLocation)>,
        ParseError,
    >)
        ensures
            match spec_extract_params(args@) {
                Ok(sq) => r matches Ok(v) && v@ == sq,
                Err(e) => r == Err::<Vec<(SolidityType, SignatureDataLocation)>, ParseError>(e),
            },
    {
        let (lo, hi) = trim_bounds(args);
        let t = copy_range(args, lo, hi);
        proof {
            assert(t@ == spec_trim(args@));
        }
        if t.len() == 0 {
            let v: Vec<(SolidityType, SignatureDataLocation)> = Vec::new();
            proof {
                assert(v@ =~= Seq::<(SolidityType, SignatureDataLocation)>::empty());
            }
            return Ok(v);
        }
        proof {
            assert(t@.subrange(0, t@.len() as int) =~= t@);
        }
        parse_params_from(t.as_slice(), 0)
    }

    /// Parses a full signature string, exactly as
    /// `spec_parse_signature` says.
    pub fn parse_into_solidity_signature(sig_str: &[u8]) -> (r: Result<
        SoliditySignature,
        ParseError,
    >)
        ensures
            match spec_parse_signature(sig_str@) {
                Ok(m) => r matches Ok(sig) && sig@ == m,
                Err(e) => r == Err::<SoliditySignature, ParseError>(e),
            },
    {
        let (tlo, thi) = trim_bounds(sig_str);
        let t = copy_range(sig_str, tlo, thi);
        proof {
            assert(t@ == spec_trim(sig_str@));
        }
        if t.len() == 0 {
            return Err(ParseError::Malformed);
        }
        if !crate::parse::ident_start_byte(t[0]) {
            return Err(ParseError::Malformed);
        }
        let mut name_len: usize = 1;
        while name_len < t.len() && crate::parse::ident_char_byte(t[name_len])
            invariant
                1 <= name_len <= t@.len(),
                forall|j: int| 1 <= j < name_len ==> is_ident_char(#[trigger] t@[j]),
            decreases t@.len() - name_len,
        {
            name_len = name_len + 1;
        }
        proof {
            lemma_ident_run(t@, 1, name_len as int);
        }
        let rest_lo = crate::text::trim_start_bound(t.as_slice(), name_len, t.len());
        let rest = copy_range(t.as_slice(), rest_lo, t.len());
        proof {
            assert(rest@ == spec_trim_start(t@.subrange(name_len as int, t@.len() as int)));
        }
        if rest.len() == 0 {
            return Err(ParseError::Malformed);
        }
        if rest[0] != 40 {
            return Err(ParseError::Malformed);
        }
        match range_find(rest.as_slice(), 0, rest.len(), 41) {
            None => {
                proof {
                    crate::text::lemma_find_character(rest@, 41);
                    if spec_find(rest@, 41) is Some {
                        let p = spec_find(rest@, 41)->0;
                        assert(rest@[p] == 41);
                    }
                }
                Err(ParseError::Malformed)
            },
            Some(rp) => {
                proof {
                    lemma_find_unique(rest@, 41, rp as int);
                }
                let args = copy_range(rest.as_slice(), 1, rp);
                let (alo, ahi) = crate::text::trim_range(rest.as_slice(), rp + 1, rest.len());
                let tail = copy_range(rest.as_slice(), alo, ahi);
                proof {
                    assert(tail@ == spec_trim(rest@.subrange(rp + 1, rest@.len() as int)));
                }
                let mut ret_src: Vec<u8> = Vec::new();
                if tail.len() > 0 {
                    let kw_returns_v: Vec<u8> = vec![114, 101, 116, 117, 114, 110, 115];
                    proof {
                        assert(kw_returns_v@ =~= kw_returns());
                    }
                    if !starts_with(tail.as_slice(), kw_returns_v.as_slice()) {
                        return Err(ParseError::ReturnClause);
                    }
                    let (blo, bhi) = crate::text::trim_range(tail.as_slice(), 7, tail.len());
                    let after = copy_range(tail.as_slice(), blo, bhi);
                    proof {
                        assert(after@ == spec_trim(tail@.subrange(7, tail@.len() as int)));
                    }
                    if !(after.len() >= 2 && after[0] == 40 && after[after.len() - 1] == 41) {
                        return Err(ParseError::ReturnClause);
                    }
                    ret_src = copy_range(after.as_slice(), 1, after.len() - 1);
                }
                let ghost spec_ret_src: Seq<u8> = if spec_trim(
                    rest@.subrange(rp + 1, rest@.len() as int),
                ).len() == 0 {
                    Seq::empty()
                } else {
                    let after = spec_trim(
                        spec_trim(rest@.subrange(rp + 1, rest@.len() as int)).subrange(
                            7,
                            spec_trim(rest@.subrange(rp + 1, rest@.len() as int)).len() as int,
                        ),
                    );
                    after.subrange(1, after.len() - 1)
                };
                proof {
                    assert(ret_src@ =~= spec_ret_src);
                }
                let para_types = match Self::extract_para_type_str(args.as_slice()) {
                    Ok(v) => v,
                    Err(e) => {
                        proof {
                            assert(args@ =~= rest@.subrange(1, rp as int));
                        }
                        return Err(e);
                    },
                };
                let ret_types = match Self::extract_para_type_str(ret_src.as_slice()) {
                    Ok(v) => v,
                    Err(e) => {
                        proof {
                            assert(args@ =~= rest@.subrange(1, rp as int));
                        }
                        return Err(e);
                    },
                };
                let name = copy_range(t.as_slice(), 0, name_len);
                let sig = SoliditySignature { sig_name: name, para_types, ret_types };
                proof {
                    assert(args@ =~= rest@.subrange(1, rp as int));
                    assert(sig@.sig_name =~= t@.subrange(0, name_len as int));
                }
                Ok(sig)
            },
        }
    }

    /// Renders the comma-joined canonical parameter-type list for the
    /// selector.
    pub fn compute_param_types(&self, param_types: &[SolidityType]) -> (v: Vec<u8>)
        ensures
            v@ == spec_canon_join(param_types@, 44),
    {
        render_joined(param_types, 44)
    }

    /// The selector-input string: the hash of this string yields the
    /// 4-byte function selector.
    pub fn selector_signature(&self) -> (v: Vec<u8>)
        ensures
            v@ == spec_selector(self@),
    {
        let mut v = copy_range(self.sig_name.as_slice(), 0, self.sig_name.len());
        proof {
            assert(v@ =~= self.sig_name@);
        }
        v.push(40);
        let mut i: usize = 0;
        while i < self.para_types.len()
            invariant
                0 <= i <= self.para_types@.len(),
                v@ == self.sig_name@ + seq![40u8] + spec_canon_join(
                    spec_sig_types(self.para_types@.subrange(0, i as int)),
                    44,
                ),
            decreases self.para_types@.len() - i,
        {
            if i > 0 {
                v.push(44);
            }
            let mut e = self.para_types[i].0.canonical_bytes();
            v.append(&mut e);
            proof {
                let pre = spec_sig_types(self.para_types@.subrange(0, i as int));
                let cur = self.para_types@[i as int].0;
                assert(spec_sig_types(self.para_types@.subrange(0, i + 1 as int)) =~= pre.push(
                    cur,
                ));
                lemma_join_snoc(pre, cur, 44);
                assert(v@ =~= self.sig_name@ + seq![40u8] + spec_canon_join(
                    spec_sig_types(self.para_types@.subrange(0, i + 1 as int)),
                    44,
                ));
            }
            i = i + 1;
        }
        v.push(41);
        proof {
            assert(self.para_types@.subrange(0, self.para_types@.len() as int) =~= self.para_types@);
            assert(v@ =~= spec_selector(self@));
        }
        v
    }
}

/// A maximal identifier run ends exactly where scanning stopped.
proof fn lemma_ident_run(s: Seq<u8>, start: int, stop: int)
    requires
        0 <= start <= stop <= s.len(),
        forall|j: int| start <= j < stop ==> is_ident_char(#[trigger] s[j]),
        stop == s.len() || !is_ident_char(s[stop]),
    ensures
        spec_ident_run(s, start) == stop,
    decreases stop - start,
{
    if start < stop {
        lemma_ident_run(s, start + 1, stop);
    }
}

} // verus!
