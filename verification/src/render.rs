//! Canonical rendering of Solidity types: the exact textual form that
//! selector computation hashes, and the mangled names built from it.

use vstd::prelude::*;

use crate::text::{format_usize, spec_dec};
use crate::ty::{SignatureDataLocation, SolidityPrimitiveType, SolidityType};

verus! {

broadcast use vstd::std_specs::vec::axiom_vec_index_decreases;

/// The canonical rendering of a primitive type: `bool`, `uint<N>`,
/// `int<N>`, `fixed<M>x<N>`, `ufixed<M>x<N>`, or `address`. A payable
/// address renders as plain `address`.
pub open spec fn spec_canon_prim(p: SolidityPrimitiveType) -> Seq<u8> {
    match p {
        SolidityPrimitiveType::Bool => seq![98, 111, 111, 108],
        SolidityPrimitiveType::Uint(n) => seq![117, 105, 110, 116] + spec_dec(n as nat),
        SolidityPrimitiveType::Int(n) => seq![105, 110, 116] + spec_dec(n as nat),
        SolidityPrimitiveType::Fixed(m, n) => seq![102, 105, 120, 101, 100] + spec_dec(
            m as nat,
        ) + seq![120] + spec_dec(n as nat),
        SolidityPrimitiveType::Ufixed(m, n) => seq![117, 102, 105, 120, 101, 100] + spec_dec(
            m as nat,
        ) + seq![120] + spec_dec(n as nat),
        SolidityPrimitiveType::Address(_) => seq![97, 100, 100, 114, 101, 115, 115],
    }
}

/// The canonical rendering of a type: primitives as above, arrays as
/// `<elem>[]` or `<elem>[<n>]`, tuples parenthesized and comma-joined,
/// and `string`, `bytes`, `bytes<N>` literally.
pub open spec fn spec_canon(t: SolidityType) -> Seq<u8>
    decreases t,
    via spec_canon_dec
{
    match t {
        SolidityType::Primitive(p) => spec_canon_prim(p),
        SolidityType::Tuple(ts) => seq![40] + spec_canon_join(ts@, 44) + seq![41],
        SolidityType::DynamicArray(e) => spec_canon(*e) + seq![91, 93],
        SolidityType::StaticArray(e, n) => spec_canon(*e) + seq![91] + spec_dec(n as nat)
            + seq![93],
        SolidityType::SolidityString => seq![115, 116, 114, 105, 110, 103],
        SolidityType::Bytes => seq![98, 121, 116, 101, 115],
        SolidityType::BytesStatic(n) => seq![98, 121, 116, 101, 115] + spec_dec(n as nat),
    }
}

#[via_fn]
proof fn spec_canon_dec(t: SolidityType) {
    if t is Tuple {
        assert(decreases_to!(t => t->Tuple_0));
        assert(decreases_to!(t->Tuple_0 => t->Tuple_0@));
    }
}

/// The canonical renderings of the members, joined by `sep`.
pub open spec fn spec_canon_join(ts: Seq<SolidityType>, sep: u8) -> Seq<u8>
    decreases ts,
    via spec_canon_join_dec
{
    if ts.len() == 0 {
        Seq::empty()
    } else if ts.len() == 1 {
        spec_canon(ts[0])
    } else {
        spec_canon(ts[0]) + seq![sep] + spec_canon_join(ts.drop_first(), sep)
    }
}

#[via_fn]
proof fn spec_canon_join_dec(ts: Seq<SolidityType>, sep: u8) {
    if ts.len() > 0 {
        assert(decreases_to!(ts => ts[0]));
        assert(ts.drop_first() == ts.subrange(1, ts.len() as int));
        assert(decreases_to!(ts => ts.subrange(1, ts.len() as int)));
    }
}

/// Appending one member to a joined rendering appends a separator (when
/// something precedes) and the member's rendering.
pub proof fn lemma_join_snoc(ts: Seq<SolidityType>, x: SolidityType, sep: u8)
    ensures
        spec_canon_join(ts.push(x), sep) == if ts.len() == 0 {
            spec_canon(x)
        } else {
            spec_canon_join(ts, sep) + seq![sep] + spec_canon(x)
        },
    decreases ts.len(),
{
    let p = ts.push(x);
    if ts.len() == 0 {
        assert(p.len() == 1);
        assert(p[0] == x);
    } else {
        assert(p.len() >= 2);
        assert(p[0] == ts[0]);
        assert(p.drop_first() =~= ts.drop_first().push(x));
        lemma_join_snoc(ts.drop_first(), x, sep);
        if ts.len() == 1 {
            assert(ts.drop_first().len() == 0);
            assert(spec_canon_join(p, sep) == spec_canon(ts[0]) + seq![sep] + spec_canon(x));
            assert(spec_canon_join(ts, sep) == spec_canon(ts[0]));
        } else {
            assert(spec_canon_join(p, sep) == spec_canon(ts[0]) + seq![sep] + (spec_canon_join(
                ts.drop_first(),
                sep,
            ) + seq![sep] + spec_canon(x)));
            assert(spec_canon_join(ts, sep) + seq![sep] + spec_canon(x) =~= spec_canon(ts[0])
                + seq![sep] + (spec_canon_join(ts.drop_first(), sep) + seq![sep] + spec_canon(x)));
        }
    }
}

impl SolidityPrimitiveType {
    /// Renders the primitive in canonical Solidity syntax.
    pub fn canonical_bytes(&self) -> (v: Vec<u8>)
        ensures
            v@ == spec_canon_prim(*self),
    {
        match self {
            SolidityPrimitiveType::Bool => {
                let mut v: Vec<u8> = Vec::new();
                v.push(98);
                v.push(111);
                v.push(111);
                v.push(108);
                proof {
                    assert(v@ =~= spec_canon_prim(*self));
                }
                v
            },
            SolidityPrimitiveType::Uint(n) => {
                let mut v: Vec<u8> = Vec::new();
                v.push(117);
                v.push(105);
                v.push(110);
                v.push(116);
                let mut d = format_usize(*n);
                v.append(&mut d);
                proof {
                    assert(v@ =~= spec_canon_prim(*self));
                }
                v
            },
            SolidityPrimitiveType::Int(n) => {
                let mut v: Vec<u8> = Vec::new();
                v.push(105);
                v.push(110);
                v.push(116);
                let mut d = format_usize(*n);
                v.append(&mut d);
                proof {
                    assert(v@ =~= spec_canon_prim(*self));
                }
                v
            },
            SolidityPrimitiveType::Fixed(m, n) => {
                let mut v: Vec<u8> = Vec::new();
                v.push(102);
                v.push(105);
                v.push(120);
                v.push(101);
                v.push(100);
                let mut d = format_usize(*m);
                v.append(&mut d);
                v.push(120);
                let mut d2 = format_usize(*n);
                v.append(&mut d2);
                proof {
                    assert(v@ =~= spec_canon_prim(*self));
                }
                v
            },
            SolidityPrimitiveType::Ufixed(m, n) => {
                let mut v: Vec<u8> = Vec::new();
                v.push(117);
                v.push(102);
                v.push(105);
                v.push(120);
                v.push(101);
                v.push(100);
                let mut d = format_usize(*m);
                v.append(&mut d);
                v.push(120);
                let mut d2 = format_usize(*n);
                v.append(&mut d2);
                proof {
                    assert(v@ =~= spec_canon_prim(*self));
                }
                v
            },
            SolidityPrimitiveType::Address(_) => {
                let mut v: Vec<u8> = Vec::new();
                v.push(97);
                v.push(100);
                v.push(100);
                v.push(114);
                v.push(101);
                v.push(115);
                v.push(115);
                proof {
                    assert(v@ =~= spec_canon_prim(*self));
                }
                v
            },
        }
    }
}

impl SolidityType {
    /// Renders the type in canonical Solidity syntax, the form selector
    /// computation relies on.
    pub fn canonical_bytes(&self) -> (v: Vec<u8>)
        ensures
            v@ == spec_canon(*self),
        decreases self,
    {
        match self {
            SolidityType::Primitive(p) => p.canonical_bytes(),
            SolidityType::Tuple(ts) => {
                proof {
                    assert(self->Tuple_0 == *ts);
                }
                let mut v: Vec<u8> = Vec::new();
                v.push(40);
                let mut i: usize = 0;
                while i < ts.len()
                    invariant
                        0 <= i <= ts@.len(),
                        (*self) is Tuple,
                        self->Tuple_0 == *ts,
                        v@ == seq![40] + spec_canon_join(ts@.subrange(0, i as int), 44),
                    decreases ts@.len() - i,
                {
                    proof {
                        assert(decreases_to!(*self => self->Tuple_0));
                        assert(decreases_to!(self->Tuple_0 => self->Tuple_0@[i as int]));
                    }
                    if i > 0 {
                        v.push(44);
                    }
                    let mut e = ts[i].canonical_bytes();
                    v.append(&mut e);
                    proof {
                        let pre = ts@.subrange(0, i as int);
                        assert(ts@.subrange(0, i + 1 as int) =~= pre.push(ts@[i as int]));
                        lemma_join_snoc(pre, ts@[i as int], 44);
                        if i == 0 {
                            assert(v@ =~= seq![40] + spec_canon_join(
                                ts@.subrange(0, i + 1 as int),
                                44,
                            ));
                        } else {
                            assert(v@ =~= seq![40] + spec_canon_join(
                                ts@.subrange(0, i + 1 as int),
                                44,
                            ));
                        }
                    }
                    i = i + 1;
                }
                v.push(41);
                proof {
                    assert(ts@.subrange(0, ts@.len() as int) =~= ts@);
                    assert(v@ =~= seq![40] + spec_canon_join(ts@, 44) + seq![41]);
                }
                v
            },
            SolidityType::DynamicArray(e) => {
                let mut v = e.canonical_bytes();
                v.push(91);
                v.push(93);
                proof {
                    assert(v@ =~= spec_canon(*self));
                }
                v
            },
            SolidityType::StaticArray(e, n) => {
                let mut v = e.canonical_bytes();
                v.push(91);
                let mut d = format_usize(*n);
                v.append(&mut d);
                v.push(93);
                proof {
                    assert(v@ =~= spec_canon(*self));
                }
                v
            },
            SolidityType::SolidityString => {
                let mut v: Vec<u8> = Vec::new();
                v.push(115);
                v.push(116);
                v.push(114);
                v.push(105);
                v.push(110);
                v.push(103);
                proof {
                    assert(v@ =~= spec_canon(*self));
                }
                v
            },
            SolidityType::Bytes => {
                let mut v: Vec<u8> = Vec::new();
                v.push(98);
                v.push(121);
                v.push(116);
                v.push(101);
                v.push(115);
                proof {
                    assert(v@ =~= spec_canon(*self));
                }
                v
            },
            SolidityType::BytesStatic(n) => {
                let mut v: Vec<u8> = Vec::new();
                v.push(98);
                v.push(121);
                v.push(116);
                v.push(101);
                v.push(115);
                let mut d = format_usize(*n);
                v.append(&mut d);
                proof {
                    assert(v@ =~= spec_canon(*self));
                }
                v
            },
        }
    }
}

impl SignatureDataLocation {
    /// Renders the data location in Solidity syntax: `memory`.
    pub fn canonical_bytes(&self) -> (v: Vec<u8>)
        ensures
            v@ == seq![109u8, 101, 109, 111, 114, 121],
    {
        let mut v: Vec<u8> = Vec::new();
        v.push(109);
        v.push(101);
        v.push(109);
        v.push(111);
        v.push(114);
        v.push(121);
        proof {
            assert(v@ =~= seq![109u8, 101, 109, 111, 114, 121]);
        }
        v
    }
}

/// The mangled name of a type list: empty for an empty list, otherwise
/// the canonical renderings joined by `_` between `$` fences.
pub open spec fn spec_mangle(ts: Seq<SolidityType>) -> Seq<u8> {
    if ts.len() == 0 {
        Seq::empty()
    } else {
        seq![36] + spec_canon_join(ts, 95) + seq![36]
    }
}

/// Renders the members joined by `sep`.
pub fn render_joined(tys: &[SolidityType], sep: u8) -> (v: Vec<u8>)
    ensures
        v@ == spec_canon_join(tys@, sep),
{
    let mut v: Vec<u8> = Vec::new();
    let mut i: usize = 0;
    while i < tys.len()
        invariant
            0 <= i <= tys@.len(),
            v@ == spec_canon_join(tys@.subrange(0, i as int), sep),
        decreases tys@.len() - i,
    {
        if i > 0 {
            v.push(sep);
        }
        let mut e = tys[i].canonical_bytes();
        v.append(&mut e);
        proof {
            let pre = tys@.subrange(0, i as int);
            assert(tys@.subrange(0, i + 1 as int) =~= pre.push(tys@[i as int]));
            lemma_join_snoc(pre, tys@[i as int], sep);
            assert(v@ =~= spec_canon_join(tys@.subrange(0, i + 1 as int), sep));
        }
        i = i + 1;
    }
    proof {
        assert(tys@.subrange(0, tys@.len() as int) =~= tys@);
    }
    v
}

/// Mangles a slice of Solidity types into a symbol-name fragment.
pub fn mangle_solidity_types(tys: &[SolidityType]) -> (v: Vec<u8>)
    ensures
        v@ == spec_mangle(tys@),
{
    if tys.len() == 0 {
        Vec::new()
    } else {
        let mut v: Vec<u8> = Vec::new();
        v.push(36);
        let mut j = render_joined(tys, 95);
        v.append(&mut j);
        v.push(36);
        proof {
            assert(v@ =~= spec_mangle(tys@));
        }
        v
    }
}

} // verus!
