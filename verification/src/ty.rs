//! The Solidity ABI type algebra: primitive kinds, the recursive type
//! union, data locations, and the structural predicates over them.

use vstd::prelude::*;

verus! {

broadcast use vstd::std_specs::vec::axiom_vec_index_decreases;

/// A primitive Solidity value kind.
#[derive(Debug, PartialEq, Eq, PartialOrd, Ord, Hash, Clone, Copy)]
pub enum SolidityPrimitiveType {
    Bool,
    Uint(usize),
    Int(usize),
    Fixed(usize, usize),
    Ufixed(usize, usize),
    Address(bool),
}

/// A Solidity ABI type. Arrays own their element type, so every value
/// is a finite tree.
#[derive(Debug, PartialEq, Eq, PartialOrd, Ord, Hash)]
pub enum SolidityType {
    Primitive(SolidityPrimitiveType),
    Tuple(Vec<SolidityType>),
    DynamicArray(Box<SolidityType>),
    StaticArray(Box<SolidityType>, usize),
    SolidityString,
    Bytes,
    BytesStatic(usize),
}

/// Where a reference-like parameter's data resides. Only `memory` is
/// supported; a `calldata` qualifier is rejected during parsing.
#[derive(Debug, PartialEq, Eq, PartialOrd, Ord, Hash, Clone, Copy)]
pub enum SignatureDataLocation {
    Memory,
}

/// An integer width a `uint<N>`/`int<N>` may carry: a multiple of 8
/// within 8..=256. The same rule bounds the integer digits of a
/// fixed-point type.
pub open spec fn int_width_ok(n: usize) -> bool {
    8 <= n <= 256 && n % 8 == 0
}

/// A fraction-digit count a fixed-point type may carry.
pub open spec fn fixed_n_ok(n: usize) -> bool {
    n <= 80
}

/// A byte count a `bytes<N>` may carry.
pub open spec fn static_bytes_ok(n: usize) -> bool {
    1 <= n <= 32
}

impl SolidityPrimitiveType {
    /// The numeric invariants of a well-formed primitive type.
    pub open spec fn wf(self) -> bool {
        match self {
            SolidityPrimitiveType::Uint(n) => int_width_ok(n),
            SolidityPrimitiveType::Int(n) => int_width_ok(n),
            SolidityPrimitiveType::Fixed(m, n) => int_width_ok(m) && fixed_n_ok(n),
            SolidityPrimitiveType::Ufixed(m, n) => int_width_ok(m) && fixed_n_ok(n),
            _ => true,
        }
    }
}

impl SolidityType {
    /// The numeric invariants of a well-formed type, at every nesting
    /// level.
    pub open spec fn wf(self) -> bool
        decreases self,
        via Self::wf_dec
    {
        match self {
            SolidityType::Primitive(p) => p.wf(),
            SolidityType::Tuple(ts) => all_wf(ts@),
            SolidityType::DynamicArray(e) => e.wf(),
            SolidityType::StaticArray(e, _) => e.wf(),
            SolidityType::BytesStatic(n) => static_bytes_ok(n),
            _ => true,
        }
    }

    #[via_fn]
    proof fn wf_dec(self) {
        if self is Tuple {
            assert(decreases_to!(self => self->Tuple_0));
            assert(decreases_to!(self->Tuple_0 => self->Tuple_0@));
        }
    }

    /// Whether the type's encoded size is independent of its value: a
    /// primitive or static byte string is static, an aggregate is
    /// static exactly when all its components are, and dynamic arrays,
    /// `bytes` and `string` never are.
    pub open spec fn spec_is_static(self) -> bool
        decreases self,
        via Self::spec_is_static_dec
    {
        match self {
            SolidityType::Primitive(_) => true,
            SolidityType::BytesStatic(_) => true,
            SolidityType::Tuple(ts) => all_static(ts@),
            SolidityType::StaticArray(e, _) => e.spec_is_static(),
            _ => false,
        }
    }

    #[via_fn]
    proof fn spec_is_static_dec(self) {
        if self is Tuple {
            assert(decreases_to!(self => self->Tuple_0));
            assert(decreases_to!(self->Tuple_0 => self->Tuple_0@));
        }
    }

    /// Whether the type is a value type (a primitive or a static byte
    /// string), which admits no data-location qualifier.
    pub open spec fn spec_is_value_type(self) -> bool {
        self is Primitive || self is BytesStatic
    }

    /// Whether no `Tuple` occurs anywhere in the type. The parser never
    /// builds a tuple; only internal struct flattening does.
    pub open spec fn tuple_free(self) -> bool
        decreases self,
    {
        match self {
            SolidityType::Tuple(_) => false,
            SolidityType::DynamicArray(e) => e.tuple_free(),
            SolidityType::StaticArray(e, _) => e.tuple_free(),
            _ => true,
        }
    }

    /// Structural equality that looks through the vector a tuple holds:
    /// two types are alike exactly when they have the same shape and the
    /// same numeric parameters everywhere.
    pub open spec fn deep_eq(self, other: Self) -> bool
        decreases self,
        via Self::deep_eq_dec
    {
        match (self, other) {
            (SolidityType::Primitive(a), SolidityType::Primitive(b)) => a == b,
            (SolidityType::Tuple(x), SolidityType::Tuple(y)) => all_deep_eq(x@, y@),
            (SolidityType::DynamicArray(a), SolidityType::DynamicArray(b)) => a.deep_eq(*b),
            (SolidityType::StaticArray(a, m), SolidityType::StaticArray(b, n)) => m == n
                && a.deep_eq(*b),
            (SolidityType::SolidityString, SolidityType::SolidityString) => true,
            (SolidityType::Bytes, SolidityType::Bytes) => true,
            (SolidityType::BytesStatic(m), SolidityType::BytesStatic(n)) => m == n,
            _ => false,
        }
    }

    #[via_fn]
    proof fn deep_eq_dec(self, other: Self) {
        if self is Tuple && other is Tuple {
            assert(decreases_to!(self => self->Tuple_0));
            assert(decreases_to!(self->Tuple_0 => self->Tuple_0@));
        }
    }

    /// Decides `spec_is_static` for the sense of serialization.
    pub fn is_static(&self) -> (r: bool)
        ensures
            r == self.spec_is_static(),
        decreases self,
    {
        match self {
            SolidityType::Primitive(_) => true,
            SolidityType::BytesStatic(_) => true,
            SolidityType::Tuple(ts) => {
                proof {
                    assert(self->Tuple_0 == *ts);
                }
                let mut i: usize = 0;
                while i < ts.len()
                    invariant
                        0 <= i <= ts@.len(),
                        (*self) is Tuple,
                        self->Tuple_0 == *ts,
                        forall|j: int| 0 <= j < i ==> (#[trigger] ts@[j]).spec_is_static(),
                    decreases ts@.len() - i,
                {
                    proof {
                        assert(decreases_to!(*self => self->Tuple_0));
                        assert(decreases_to!(self->Tuple_0 => self->Tuple_0@[i as int]));
                    }
                    if !ts[i].is_static() {
                        proof {
                            assert(!all_static(ts@)) by {
                                if all_static(ts@) {
                                    assert(ts@[i as int].spec_is_static());
                                }
                            }
                        }
                        return false;
                    }
                    i = i + 1;
                }
                proof {
                    assert(all_static(ts@)) by {
                        assert forall|j: int|
                            0 <= j < ts@.len() implies (#[trigger] ts@[j]).spec_is_static() by {}
                    }
                }
                true
            },
            SolidityType::StaticArray(e, _) => e.is_static(),
            _ => false,
        }
    }

    /// Decides `spec_is_value_type`.
    pub fn is_value_type(&self) -> (r: bool)
        ensures
            r == self.spec_is_value_type(),
    {
        match self {
            SolidityType::Primitive(_) => true,
            SolidityType::BytesStatic(_) => true,
            _ => false,
        }
    }
}

/// Every member of the sequence is well-formed.
pub open spec fn all_wf(ts: Seq<SolidityType>) -> bool
    decreases ts,
{
    forall|i: int| 0 <= i < ts.len() ==> (#[trigger] ts[i]).wf()
}

/// Every member of the sequence is static.
pub open spec fn all_static(ts: Seq<SolidityType>) -> bool
    decreases ts,
{
    forall|i: int| 0 <= i < ts.len() ==> (#[trigger] ts[i]).spec_is_static()
}

/// The sequences match pairwise under `deep_eq`.
pub open spec fn all_deep_eq(x: Seq<SolidityType>, y: Seq<SolidityType>) -> bool
    decreases x,
{
    x.len() == y.len() && forall|i: int| 0 <= i < x.len() ==> (#[trigger] x[i]).deep_eq(y[i])
}

impl Clone for SolidityType {
    /// A structural copy: alike in shape and parameters everywhere, and
    /// equal outright when no tuple occurs in the type.
    fn clone(&self) -> (r: Self)
        ensures
            r.deep_eq(*self),
            self.tuple_free() ==> r == *self,
        decreases self,
    {
        match self {
            SolidityType::Primitive(p) => SolidityType::Primitive(*p),
            SolidityType::Tuple(ts) => {
                proof {
                    assert(self->Tuple_0 == *ts);
                }
                let mut v: Vec<SolidityType> = Vec::new();
                let mut i: usize = 0;
                while i < ts.len()
                    invariant
                        0 <= i <= ts@.len(),
                        (*self) is Tuple,
                        self->Tuple_0 == *ts,
                        v@.len() == i,
                        forall|j: int| 0 <= j < i ==> (#[trigger] v@[j]).deep_eq(ts@[j]),
                    decreases ts@.len() - i,
                {
                    proof {
                        assert(decreases_to!(*self => self->Tuple_0));
                        assert(decreases_to!(self->Tuple_0 => self->Tuple_0@[i as int]));
                    }
                    v.push(ts[i].clone());
                    i = i + 1;
                }
                let r = SolidityType::Tuple(v);
                proof {
                    assert(r->Tuple_0 == v);
                    assert(all_deep_eq(v@, ts@)) by {
                        assert forall|j: int|
                            0 <= j < v@.len() implies (#[trigger] v@[j]).deep_eq(ts@[j]) by {}
                    }
                }
                r
            },
            SolidityType::DynamicArray(e) => SolidityType::DynamicArray(Box::new((**e).clone())),
            SolidityType::StaticArray(e, n) => SolidityType::StaticArray(
                Box::new((**e).clone()),
                *n,
            ),
            SolidityType::SolidityString => SolidityType::SolidityString,
            SolidityType::Bytes => SolidityType::Bytes,
            SolidityType::BytesStatic(n) => SolidityType::BytesStatic(*n),
        }
    }
}

/// From pairwise `deep_eq` to `all_deep_eq`.
pub proof fn lemma_all_deep_eq_intro(x: Seq<SolidityType>, y: Seq<SolidityType>)
    requires
        x.len() == y.len(),
        forall|i: int| 0 <= i < x.len() ==> (#[trigger] x[i]).deep_eq(y[i]),
    ensures
        all_deep_eq(x, y),
{
}

/// The structural fixed point of staticness: an aggregate is static
/// exactly when all its components are, and a dynamic array, `bytes`
/// or `string` never is.
pub proof fn lemma_is_static_structure(t: SolidityType)
    ensures
        t is Tuple ==> (t.spec_is_static() <==> all_static(t->Tuple_0@)),
        t is StaticArray ==> (t.spec_is_static() <==> t->StaticArray_0.spec_is_static()),
        t is DynamicArray ==> !t.spec_is_static(),
        t is Bytes ==> !t.spec_is_static(),
        t is SolidityString ==> !t.spec_is_static(),
        t is Primitive ==> t.spec_is_static(),
        t is BytesStatic ==> t.spec_is_static(),
{
}

} // verus!
