//! The bridge to the source language: a plain-value model of its types,
//! the compatibility checker between the two type systems, and the
//! default translation when no user signature exists.

use vstd::prelude::*;

use crate::errors::InternalError;
use crate::sig::SoliditySignature;
use crate::ty::{SignatureDataLocation, SolidityPrimitiveType, SolidityType};

verus! {

broadcast use vstd::std_specs::vec::axiom_vec_index_decreases;

/// A primitive value type of the source language.
#[derive(Debug, PartialEq, Eq, Clone, Copy)]
pub enum MovePrimitiveType {
    Bool,
    U8,
    U64,
    U128,
    Address,
    Signer,
}

/// A source-language type, carrying as plain values everything this
/// system reads of it. A `Struct` holds the answers of the type-query
/// capability: whether the nominal type is the canonical 256-bit
/// integer representation, whether it is the canonical string
/// representation, and its field types in declaration order.
/// `Unrepresentable` stands for the shapes outside the representable
/// domain: type parameters, references, function types and other
/// non-value constructs.
#[derive(Debug, PartialEq, Eq)]
pub enum MoveType {
    Primitive(MovePrimitiveType),
    Vector(Box<MoveType>),
    Tuple(Vec<MoveType>),
    Struct { is_u256: bool, is_string: bool, fields: Vec<MoveType> },
    Unrepresentable,
}

/// A source function's interface: its name and its declared parameter
/// and return types, in order.
#[derive(Debug)]
pub struct MoveFunctionInfo {
    pub name: Vec<u8>,
    pub param_types: Vec<MoveType>,
    pub return_types: Vec<MoveType>,
}

/// Whether a source type is wide enough for a `uint<size>`/`int<size>`:
/// `u8` only exactly, `u64` and `u128` up to their own width, and the
/// recognized 256-bit integer struct always.
pub open spec fn spec_uint_compatible(size: usize, mt: MoveType) -> bool {
    match mt {
        MoveType::Primitive(p) => match p {
            MovePrimitiveType::U8 => size == 8,
            MovePrimitiveType::U64 => size <= 64,
            MovePrimitiveType::U128 => size <= 128,
            _ => false,
        },
        MoveType::Struct { is_u256, .. } => is_u256,
        _ => false,
    }
}

/// Whether a primitive Solidity type is a legal projection of a source
/// type: `bool` only of a boolean, integers by width as above,
/// fixed-point never, `address` of an address or signer.
pub open spec fn spec_prim_compatible(p: SolidityPrimitiveType, mt: MoveType) -> bool {
    match p {
        SolidityPrimitiveType::Bool => mt == MoveType::Primitive(MovePrimitiveType::Bool),
        SolidityPrimitiveType::Uint(i) => spec_uint_compatible(i, mt),
        SolidityPrimitiveType::Int(i) => spec_uint_compatible(i, mt),
        SolidityPrimitiveType::Fixed(_, _) => false,
        SolidityPrimitiveType::Ufixed(_, _) => false,
        SolidityPrimitiveType::Address(_) => mt == MoveType::Primitive(MovePrimitiveType::Address)
            || mt == MoveType::Primitive(MovePrimitiveType::Signer),
    }
}

/// Whether a Solidity type is a legal ABI projection of a source type.
/// Arrays require a source vector with a compatible element; `string`
/// a recognized string struct or a raw byte vector; `bytes` forms a
/// raw byte vector. A tuple never reaches this check.
pub open spec fn spec_type_compatible(st: SolidityType, mt: MoveType) -> bool
    decreases st,
{
    match st {
        SolidityType::Primitive(p) => spec_prim_compatible(p, mt),
        SolidityType::DynamicArray(e) => mt matches MoveType::Vector(me) && spec_type_compatible(
            *e,
            *me,
        ),
        SolidityType::StaticArray(e, _) => mt matches MoveType::Vector(me)
            && spec_type_compatible(*e, *me),
        SolidityType::SolidityString => (mt matches MoveType::Struct { is_string, .. }
            && is_string) || (mt matches MoveType::Vector(me) && *me == MoveType::Primitive(
            MovePrimitiveType::U8,
        )),
        SolidityType::Bytes => mt matches MoveType::Vector(me) && *me == MoveType::Primitive(
            MovePrimitiveType::U8,
        ),
        SolidityType::BytesStatic(_) => mt matches MoveType::Vector(me) && *me
            == MoveType::Primitive(MovePrimitiveType::U8),
        SolidityType::Tuple(_) => false,
    }
}

impl SolidityPrimitiveType {
    /// Decides whether a source type can hold a `uint`/`int` of `size`
    /// bits.
    pub fn check_uint_compatibility(&self, size: usize, move_ty: &MoveType) -> (r: bool)
        ensures
            r == spec_uint_compatible(size, *move_ty),
    {
        match move_ty {
            MoveType::Primitive(p) => match p {
                MovePrimitiveType::U8 => size == 8,
                MovePrimitiveType::U64 => size <= 64,
                MovePrimitiveType::U128 => size <= 128,
                _ => false,
            },
            MoveType::Struct { is_u256, .. } => *is_u256,
            _ => false,
        }
    }

    /// Decides `spec_prim_compatible`.
    pub fn check_primitive_type_compatibility(&self, move_ty: &MoveType) -> (r: bool)
        ensures
            r == spec_prim_compatible(*self, *move_ty),
    {
        match self {
            SolidityPrimitiveType::Bool => matches!(
                move_ty,
                MoveType::Primitive(MovePrimitiveType::Bool)
            ),
            SolidityPrimitiveType::Uint(i) => self.check_uint_compatibility(*i, move_ty),
            SolidityPrimitiveType::Int(i) => self.check_uint_compatibility(*i, move_ty),
            SolidityPrimitiveType::Fixed(_, _) => false,
            SolidityPrimitiveType::Ufixed(_, _) => false,
            SolidityPrimitiveType::Address(_) => matches!(
                move_ty,
                MoveType::Primitive(MovePrimitiveType::Address)
                    | MoveType::Primitive(MovePrimitiveType::Signer)
            ),
        }
    }
}

impl SolidityType {
    /// Decides `spec_type_compatible`. A tuple is never user-reachable
    /// here — only internal struct flattening builds one — so the
    /// caller keeps tuples out; meeting one would be an internal fault.
    pub fn check_type_compatibility(&self, move_ty: &MoveType) -> (r: bool)
        requires
            self.tuple_free(),
        ensures
            r == spec_type_compatible(*self, *move_ty),
        decreases self,
    {
        match self {
            SolidityType::Primitive(p) => p.check_primitive_type_compatibility(move_ty),
            SolidityType::DynamicArray(e) => {
                if let MoveType::Vector(me) = move_ty {
                    e.check_type_compatibility(me)
                } else {
                    false
                }
            },
            SolidityType::StaticArray(e, _) => {
                if let MoveType::Vector(me) = move_ty {
                    e.check_type_compatibility(me)
                } else {
                    false
                }
            },
            SolidityType::SolidityString => {
                match move_ty {
                    MoveType::Struct { is_string, .. } => *is_string,
                    MoveType::Vector(me) => matches!(
                        **me,
                        MoveType::Primitive(MovePrimitiveType::U8)
                    ),
                    _ => false,
                }
            },
            SolidityType::Bytes => {
                match move_ty {
                    MoveType::Vector(me) => matches!(
                        **me,
                        MoveType::Primitive(MovePrimitiveType::U8)
                    ),
                    _ => false,
                }
            },
            SolidityType::BytesStatic(_) => {
                match move_ty {
                    MoveType::Vector(me) => matches!(
                        **me,
                        MoveType::Primitive(MovePrimitiveType::U8)
                    ),
                    _ => false,
                }
            },
            SolidityType::Tuple(_) => false,
        }
    }
}

/// Whether a source type lies in the representable domain of the
/// default translation.
pub open spec fn spec_translatable(mt: MoveType) -> bool
    decreases mt,
    via spec_translatable_dec
{
    match mt {
        MoveType::Primitive(_) => true,
        MoveType::Vector(me) => spec_translatable(*me),
        MoveType::Tuple(ts) => all_translatable(ts@),
        MoveType::Struct { is_u256, fields, .. } => is_u256 || all_translatable(fields@),
        MoveType::Unrepresentable => false,
    }
}

#[via_fn]
proof fn spec_translatable_dec(mt: MoveType) {
    if mt is Tuple {
        assert(decreases_to!(mt => mt->Tuple_0));
        assert(decreases_to!(mt->Tuple_0 => mt->Tuple_0@));
    }
    if mt is Struct {
        assert(decreases_to!(mt => mt->Struct_fields));
        assert(decreases_to!(mt->Struct_fields => mt->Struct_fields@));
    }
}

/// `spec_translatable` for every member.
pub open spec fn all_translatable(ts: Seq<MoveType>) -> bool
    decreases ts,
{
    forall|i: int| 0 <= i < ts.len() ==> spec_translatable(#[trigger] ts[i])
}

/// The default translation relation: booleans to `bool`, fixed-width
/// integers to `uint` of the same width, addresses and signers to a
/// non-payable `address`, vectors to dynamic arrays, tuples and
/// unrecognized structs to tuples of the translated members, and the
/// recognized 256-bit integer struct to `uint256`.
pub open spec fn translates_to(mt: MoveType, st: SolidityType) -> bool
    decreases mt,
    via translates_to_dec
{
    match mt {
        MoveType::Primitive(p) => match p {
            MovePrimitiveType::Bool => st == SolidityType::Primitive(SolidityPrimitiveType::Bool),
            MovePrimitiveType::U8 => st == SolidityType::Primitive(
                SolidityPrimitiveType::Uint(8),
            ),
            MovePrimitiveType::U64 => st == SolidityType::Primitive(
                SolidityPrimitiveType::Uint(64),
            ),
            MovePrimitiveType::U128 => st == SolidityType::Primitive(
                SolidityPrimitiveType::Uint(128),
            ),
            MovePrimitiveType::Address => st == SolidityType::Primitive(
                SolidityPrimitiveType::Address(false),
            ),
            MovePrimitiveType::Signer => st == SolidityType::Primitive(
                SolidityPrimitiveType::Address(false),
            ),
        },
        MoveType::Vector(me) => st matches SolidityType::DynamicArray(e) && translates_to(
            *me,
            *e,
        ),
        MoveType::Tuple(ts) => st matches SolidityType::Tuple(ss) && all_translate(ts@, ss@),
        MoveType::Struct { is_u256, fields, .. } => if is_u256 {
            st == SolidityType::Primitive(SolidityPrimitiveType::Uint(256))
        } else {
            st matches SolidityType::Tuple(ss) && all_translate(fields@, ss@)
        },
        MoveType::Unrepresentable => false,
    }
}

#[via_fn]
proof fn translates_to_dec(mt: MoveType, st: SolidityType) {
    if mt is Tuple {
        assert(decreases_to!(mt => mt->Tuple_0));
        assert(decreases_to!(mt->Tuple_0 => mt->Tuple_0@));
    }
    if mt is Struct {
        assert(decreases_to!(mt => mt->Struct_fields));
        assert(decreases_to!(mt->Struct_fields => mt->Struct_fields@));
    }
}

/// `translates_to`, pairwise.
pub open spec fn all_translate(ts: Seq<MoveType>, ss: Seq<SolidityType>) -> bool
    decreases ts,
{
    ts.len() == ss.len() && forall|i: int|
        0 <= i < ts.len() ==> translates_to(#[trigger] ts[i], ss[i])
}

impl SolidityType {
    /// Translates a source type into its default Solidity type, or
    /// reports the fatal condition when the type lies outside the
    /// representable domain.
    pub fn translate_from_move(ty: &MoveType) -> (r: Result<SolidityType, InternalError>)
        ensures
            match r {
                Ok(st) => spec_translatable(*ty) && translates_to(*ty, st),
                Err(e) => !spec_translatable(*ty) && e == InternalError::UnexpectedFieldType,
            },
        decreases ty,
    {
        match ty {
            MoveType::Primitive(p) => match p {
                MovePrimitiveType::Bool => Ok(
                    SolidityType::Primitive(SolidityPrimitiveType::Bool),
                ),
                MovePrimitiveType::U8 => Ok(
                    SolidityType::Primitive(SolidityPrimitiveType::Uint(8)),
                ),
                MovePrimitiveType::U64 => Ok(
                    SolidityType::Primitive(SolidityPrimitiveType::Uint(64)),
                ),
                MovePrimitiveType::U128 => Ok(
                    SolidityType::Primitive(SolidityPrimitiveType::Uint(128)),
                ),
                MovePrimitiveType::Address => Ok(
                    SolidityType::Primitive(SolidityPrimitiveType::Address(false)),
                ),
                MovePrimitiveType::Signer => Ok(
                    SolidityType::Primitive(SolidityPrimitiveType::Address(false)),
                ),
            },
            MoveType::Vector(me) => {
                match Self::translate_from_move(me) {
                    Ok(e) => Ok(SolidityType::DynamicArray(Box::new(e))),
                    Err(e) => Err(e),
                }
            },
            MoveType::Tuple(ts) => {
                proof {
                    assert(ty->Tuple_0 == *ts);
                }
                match Self::translate_vec(ty, ts) {
                    Ok(ss) => {
                        let r = SolidityType::Tuple(ss);
                        proof {
                            assert(r->Tuple_0@ == ss@);
                        }
                        Ok(r)
                    },
                    Err(e) => Err(e),
                }
            },
            MoveType::Struct { is_u256, fields, .. } => {
                if *is_u256 {
                    Ok(SolidityType::Primitive(SolidityPrimitiveType::Uint(256)))
                } else {
                    proof {
                        assert(ty->Struct_fields == *fields);
                    }
                    match Self::translate_vec(ty, fields) {
                        Ok(ss) => {
                            let r = SolidityType::Tuple(ss);
                            proof {
                                assert(r->Tuple_0@ == ss@);
                            }
                            Ok(r)
                        },
                        Err(e) => Err(e),
                    }
                }
            },
            MoveType::Unrepresentable => Err(InternalError::UnexpectedFieldType),
        }
    }

    /// Translates each member of a field list; `owner` is the type the
    /// list belongs to, named only so the recursion is seen to descend.
    fn translate_vec(owner: &MoveType, ts: &Vec<MoveType>) -> (r: Result<
        Vec<SolidityType>,
        InternalError,
    >)
        requires
            decreases_to!(*owner => *ts),
        ensures
            match r {
                Ok(ss) => all_translatable(ts@) && all_translate(ts@, ss@),
                Err(e) => !all_translatable(ts@) && e == InternalError::UnexpectedFieldType,
            },
        decreases owner, 0int,
    {
        let mut ss: Vec<SolidityType> = Vec::new();
        let mut i: usize = 0;
        while i < ts.len()
            invariant
                0 <= i <= ts@.len(),
                decreases_to!(*owner => *ts),
                ss@.len() == i,
                forall|j: int| 0 <= j < i ==> spec_translatable(#[trigger] ts@[j]),
                forall|j: int| 0 <= j < i ==> translates_to(#[trigger] ts@[j], ss@[j]),
            decreases ts@.len() - i,
        {
            proof {
                assert(decreases_to!(*ts => ts@[i as int]));
            }
            match Self::translate_from_move(&ts[i]) {
                Ok(s) => {
                    ss.push(s);
                },
                Err(e) => {
                    proof {
                        assert(!spec_translatable(ts@[i as int]));
                        assert(!all_translatable(ts@)) by {
                            if all_translatable(ts@) {
                                assert(spec_translatable(ts@[i as int]));
                            }
                        }
                    }
                    return Err(e);
                },
            }
            i = i + 1;
        }
        proof {
            assert(all_translatable(ts@)) by {
                assert forall|j: int|
                    0 <= j < ts@.len() implies spec_translatable(#[trigger] ts@[j]) by {}
            }
        }
        Ok(ss)
    }
}

/// All parameter (or return) types of a signature are tuple-free, as
/// every parser-made signature is.
pub open spec fn sig_types_tuple_free(ps: Seq<(SolidityType, SignatureDataLocation)>) -> bool {
    forall|i: int| 0 <= i < ps.len() ==> (#[trigger] ps[i]).0.tuple_free()
}

/// Whether a signature is a legal projection of a source function:
/// both arities match exactly and every positional pair is compatible.
pub open spec fn spec_sig_compatible(
    sig: crate::sig::SignatureModel,
    params: Seq<MoveType>,
    rets: Seq<MoveType>,
) -> bool {
    &&& sig.para_types.len() == params.len()
    &&& sig.ret_types.len() == rets.len()
    &&& forall|i: int|
        0 <= i < params.len() ==> spec_type_compatible((#[trigger] sig.para_types[i]).0, params[i])
    &&& forall|i: int|
        0 <= i < rets.len() ==> spec_type_compatible((#[trigger] sig.ret_types[i]).0, rets[i])
}

impl SoliditySignature {
    /// Decides whether this user-authored signature is compatible with
    /// the source function it annotates. Tuples never occur in a
    /// parsed signature, so the caller keeps them out; meeting one
    /// would be an internal fault.
    pub fn check_sig_compatibility(&self, fun: &MoveFunctionInfo) -> (r: bool)
        requires
            sig_types_tuple_free(self@.para_types),
            sig_types_tuple_free(self@.ret_types),
        ensures
            r == spec_sig_compatible(self@, fun.param_types@, fun.return_types@),
    {
        if self.para_types.len() != fun.param_types.len() {
            return false;
        }
        if self.ret_types.len() != fun.return_types.len() {
            return false;
        }
        let mut i: usize = 0;
        while i < self.para_types.len()
            invariant
                0 <= i <= self.para_types@.len(),
                self.para_types@.len() == fun.param_types@.len(),
                sig_types_tuple_free(self@.para_types),
                forall|i2: int|
                    0 <= i2 < i ==> spec_type_compatible(
                        (#[trigger] self.para_types@[i2]).0,
                        fun.param_types@[i2],
                    ),
            decreases self.para_types@.len() - i,
        {
            proof {
                assert((self@.para_types[i as int]).0.tuple_free());
            }
            if !self.para_types[i].0.check_type_compatibility(&fun.param_types[i]) {
                return false;
            }
            i = i + 1;
        }
        let mut k: usize = 0;
        while k < self.ret_types.len()
            invariant
                0 <= k <= self.ret_types@.len(),
                self.para_types@.len() == fun.param_types@.len(),
                self.ret_types@.len() == fun.return_types@.len(),
                sig_types_tuple_free(self@.ret_types),
                forall|i2: int|
                    0 <= i2 < self.para_types@.len() ==> spec_type_compatible(
                        (#[trigger] self.para_types@[i2]).0,
                        fun.param_types@[i2],
                    ),
                forall|i2: int|
                    0 <= i2 < k ==> spec_type_compatible(
                        (#[trigger] self.ret_types@[i2]).0,
                        fun.return_types@[i2],
                    ),
            decreases self.ret_types@.len() - k,
        {
            proof {
                assert((self@.ret_types[k as int]).0.tuple_free());
            }
            if !self.ret_types[k].0.check_type_compatibility(&fun.return_types[k]) {
                return false;
            }
            k = k + 1;
        }
        true
    }

    /// Builds the default signature of a source function: its name,
    /// and each parameter and return type translated, all in `memory`.
    /// Fails only when a declared type lies outside the representable
    /// domain.
    pub fn create_default_solidity_signature(fun: &MoveFunctionInfo) -> (r: Result<
        SoliditySignature,
        InternalError,
    >)
        ensures
            match r {
                Ok(sig) => {
                    &&& sig@.sig_name == fun.name@
                    &&& all_translatable(fun.param_types@)
                    &&& all_translatable(fun.return_types@)
                    &&& sig@.para_types.len() == fun.param_types@.len()
                    &&& sig@.ret_types.len() == fun.return_types@.len()
                    &&& forall|i: int|
                        0 <= i < fun.param_types@.len() ==> translates_to(
                            fun.param_types@[i],
                            (#[trigger] sig@.para_types[i]).0,
                        ) && sig@.para_types[i].1 == SignatureDataLocation::Memory
                    &&& forall|i: int|
                        0 <= i < fun.return_types@.len() ==> translates_to(
                            fun.return_types@[i],
                            (#[trigger] sig@.ret_types[i]).0,
                        ) && sig@.ret_types[i].1 == SignatureDataLocation::Memory
                },
                Err(e) => (!all_translatable(fun.param_types@) || !all_translatable(
                    fun.return_types@,
                )) && e == InternalError::UnexpectedFieldType,
            },
    {
        let mut para_type_lst: Vec<(SolidityType, SignatureDataLocation)> = Vec::new();
        let mut i: usize = 0;
        while i < fun.param_types.len()
            invariant
                0 <= i <= fun.param_types@.len(),
                para_type_lst@.len() == i,
                forall|j: int| 0 <= j < i ==> spec_translatable(#[trigger] fun.param_types@[j]),
                forall|j: int|
                    0 <= j < i ==> translates_to(
                        fun.param_types@[j],
                        (#[trigger] para_type_lst@[j]).0,
                    ) && para_type_lst@[j].1 == SignatureDataLocation::Memory,
            decreases fun.param_types@.len() - i,
        {
            match SolidityType::translate_from_move(&fun.param_types[i]) {
                Ok(st) => {
                    para_type_lst.push((st, SignatureDataLocation::Memory));
                },
                Err(e) => {
                    proof {
                        assert(!all_translatable(fun.param_types@)) by {
                            if all_translatable(fun.param_types@) {
                                assert(spec_translatable(fun.param_types@[i as int]));
                            }
                        }
                    }
                    return Err(e);
                },
            }
            i = i + 1;
        }
        let mut ret_type_lst: Vec<(SolidityType, SignatureDataLocation)> = Vec::new();
        let mut k: usize = 0;
        while k < fun.return_types.len()
            invariant
                0 <= k <= fun.return_types@.len(),
                para_type_lst@.len() == fun.param_types@.len(),
                forall|j: int|
                    0 <= j < fun.param_types@.len() ==> spec_translatable(
                        #[trigger] fun.param_types@[j],
                    ),
                forall|j: int|
                    0 <= j < fun.param_types@.len() ==> translates_to(
                        fun.param_types@[j],
                        (#[trigger] para_type_lst@[j]).0,
                    ) && para_type_lst@[j].1 == SignatureDataLocation::Memory,
                ret_type_lst@.len() == k,
                forall|j: int| 0 <= j < k ==> spec_translatable(#[trigger] fun.return_types@[j]),
                forall|j: int|
                    0 <= j < k ==> translates_to(
                        fun.return_types@[j],
                        (#[trigger] ret_type_lst@[j]).0,
                    ) && ret_type_lst@[j].1 == SignatureDataLocation::Memory,
            decreases fun.return_types@.len() - k,
        {
            match SolidityType::translate_from_move(&fun.return_types[k]) {
                Ok(st) => {
                    ret_type_lst.push((st, SignatureDataLocation::Memory));
                },
                Err(e) => {
                    proof {
                        assert(!all_translatable(fun.return_types@)) by {
                            if all_translatable(fun.return_types@) {
                                assert(spec_translatable(fun.return_types@[k as int]));
                            }
                        }
                    }
                    return Err(e);
                },
            }
            k = k + 1;
        }
        let name = crate::text::copy_range(fun.name.as_slice(), 0, fun.name.len());
        proof {
            assert(name@ =~= fun.name@);
        }
        proof {
            assert(all_translatable(fun.param_types@)) by {
                assert forall|j: int|
                    0 <= j < fun.param_types@.len() implies spec_translatable(
                    #[trigger] fun.param_types@[j],
                ) by {}
            }
            assert(all_translatable(fun.return_types@)) by {
                assert forall|j: int|
                    0 <= j < fun.return_types@.len() implies spec_translatable(
                    #[trigger] fun.return_types@[j],
                ) by {}
            }
        }
        Ok(SoliditySignature { sig_name: name, para_types: para_type_lst, ret_types: ret_type_lst })
    }
}

/// The default translation is deterministic: the relation admits one
/// Solidity type per source type.
pub proof fn lemma_translation_unique(mt: MoveType, a: SolidityType, b: SolidityType)
    requires
        translates_to(mt, a),
        translates_to(mt, b),
    ensures
        a.deep_eq(b),
    decreases mt,
{
    match mt {
        MoveType::Vector(me) => {
            lemma_translation_unique(*me, *a->DynamicArray_0, *b->DynamicArray_0);
        },
        MoveType::Tuple(ts) => {
            lemma_translation_unique_vec(mt, ts@, a->Tuple_0@, b->Tuple_0@);
        },
        MoveType::Struct { is_u256, fields, .. } => {
            if !is_u256 {
                lemma_translation_unique_vec(mt, fields@, a->Tuple_0@, b->Tuple_0@);
            } else {
                lemma_prim_deep_eq(a, b);
            }
        },
        MoveType::Primitive(_) => {
            lemma_prim_deep_eq(a, b);
        },
        MoveType::Unrepresentable => {},
    }
}

proof fn lemma_prim_deep_eq(a: SolidityType, b: SolidityType)
    requires
        a == b,
        a is Primitive,
    ensures
        a.deep_eq(b),
{
}

proof fn lemma_translation_unique_vec(
    owner: MoveType,
    ts: Seq<MoveType>,
    xs: Seq<SolidityType>,
    ys: Seq<SolidityType>,
)
    requires
        decreases_to!(owner => ts),
        all_translate(ts, xs),
        all_translate(ts, ys),
    ensures
        crate::ty::all_deep_eq(xs, ys),
    decreases owner, 1int,
{
    assert forall|i: int| 0 <= i < xs.len() implies (#[trigger] xs[i]).deep_eq(ys[i]) by {
        assert(decreases_to!(ts => ts[i]));
        assert(translates_to(ts[i], xs[i]));
        assert(translates_to(ts[i], ys[i]));
        lemma_translation_unique(ts[i], xs[i], ys[i]);
    }
    crate::ty::lemma_all_deep_eq_intro(xs, ys);
}

/// Integer-width compatibility by source kind: a `uint<n>` fits `u8`
/// only when `n` is exactly 8, `u64` when `n` is at most 64, and
/// `u128` when `n` is at most 128; no other primitive source kind
/// admits an integer.
pub proof fn lemma_uint_compatibility(n: usize, p: MovePrimitiveType)
    ensures
        spec_uint_compatible(n, MoveType::Primitive(p)) == match p {
            MovePrimitiveType::U8 => n == 8,
            MovePrimitiveType::U64 => n <= 64,
            MovePrimitiveType::U128 => n <= 128,
            _ => false,
        },
{
}

} // verus!
