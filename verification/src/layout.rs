//! The ABI layout calculator: whether a type is statically sized, and
//! the byte size its head encoding occupies, padded or unpadded.

use vstd::prelude::*;

use crate::text::{format_usize, spec_dec};
use crate::ty::SolidityPrimitiveType;
use crate::ty::SolidityType;

verus! {

broadcast use vstd::std_specs::vec::axiom_vec_index_decreases;

/// The head size of a primitive: every primitive pads to one 32-byte
/// word; unpadded, a `bool` takes 1 byte, an integer or fixed-point
/// value its width in bytes, an `address` 20 bytes.
pub open spec fn spec_prim_head_size(p: SolidityPrimitiveType, padded: bool) -> nat {
    if padded {
        32
    } else {
        match p {
            SolidityPrimitiveType::Bool => 1,
            SolidityPrimitiveType::Uint(n) => (n as nat) / 8,
            SolidityPrimitiveType::Int(n) => (n as nat) / 8,
            SolidityPrimitiveType::Fixed(m, _) => (m as nat) / 8,
            SolidityPrimitiveType::Ufixed(m, _) => (m as nat) / 8,
            SolidityPrimitiveType::Address(_) => 20,
        }
    }
}

/// The head size of a type. A dynamic type occupies a fixed 32-byte
/// offset slot whatever `padded` says. A static array takes its
/// element's size times its length, rounded up to a 32-byte multiple
/// when padded; a tuple the sum of its members; a `bytes<N>` one word
/// padded and `N*8` unpadded.
pub open spec fn spec_abi_head_size(t: SolidityType, padded: bool) -> nat
    decreases t,
    via spec_abi_head_size_dec
{
    if !t.spec_is_static() {
        32
    } else {
        match t {
            SolidityType::Primitive(p) => spec_prim_head_size(p, padded),
            SolidityType::StaticArray(e, n) => {
                let s = spec_abi_head_size(*e, padded) * (n as nat);
                if padded {
                    ((s + 31) / 32) * 32
                } else {
                    s
                }
            },
            SolidityType::BytesStatic(n) => if padded {
                32
            } else {
                (n as nat) * 8
            },
            SolidityType::Tuple(ts) => spec_head_size_sum(ts@, padded),
            _ => 0,
        }
    }
}

#[via_fn]
proof fn spec_abi_head_size_dec(t: SolidityType, padded: bool) {
    if t is Tuple {
        assert(decreases_to!(t => t->Tuple_0));
        assert(decreases_to!(t->Tuple_0 => t->Tuple_0@));
    }
}

/// The sum of the members' head sizes.
pub open spec fn spec_head_size_sum(ts: Seq<SolidityType>, padded: bool) -> nat
    decreases ts,
    via spec_head_size_sum_dec
{
    if ts.len() == 0 {
        0
    } else {
        spec_abi_head_size(ts[0], padded) + spec_head_size_sum(ts.drop_first(), padded)
    }
}

#[via_fn]
proof fn spec_head_size_sum_dec(ts: Seq<SolidityType>, padded: bool) {
    if ts.len() > 0 {
        assert(decreases_to!(ts => ts[0]));
        assert(ts.drop_first() == ts.subrange(1, ts.len() as int));
        assert(decreases_to!(ts => ts.subrange(1, ts.len() as int)));
    }
}

/// Whether every arithmetic step of the head-size computation fits in a
/// machine word, so the executable calculator cannot overflow.
pub open spec fn head_size_fits(t: SolidityType, padded: bool) -> bool
    decreases t,
    via head_size_fits_dec
{
    if !t.spec_is_static() {
        true
    } else {
        match t {
            SolidityType::StaticArray(e, n) => head_size_fits(*e, padded) && spec_abi_head_size(
                *e,
                padded,
            ) * (n as nat) + 31 <= usize::MAX,
            SolidityType::BytesStatic(n) => (n as nat) * 8 <= usize::MAX,
            SolidityType::Tuple(ts) => all_head_size_fits(ts@, padded) && spec_head_size_sum(
                ts@,
                padded,
            ) <= usize::MAX,
            _ => true,
        }
    }
}

#[via_fn]
proof fn head_size_fits_dec(t: SolidityType, padded: bool) {
    if t is Tuple {
        assert(decreases_to!(t => t->Tuple_0));
        assert(decreases_to!(t->Tuple_0 => t->Tuple_0@));
    }
}

/// `head_size_fits` for every member.
pub open spec fn all_head_size_fits(ts: Seq<SolidityType>, padded: bool) -> bool
    decreases ts,
{
    forall|i: int| 0 <= i < ts.len() ==> head_size_fits(#[trigger] ts[i], padded)
}

/// A head size the computation can reach never exceeds the word bound.
pub proof fn lemma_head_size_bounded(t: SolidityType, padded: bool)
    requires
        head_size_fits(t, padded),
    ensures
        spec_abi_head_size(t, padded) <= usize::MAX,
    decreases t,
{
    if t.spec_is_static() {
        match t {
            SolidityType::Primitive(p) => {
                assert(spec_prim_head_size(p, padded) <= 32 || spec_prim_head_size(p, padded)
                    <= usize::MAX / 8);
            },
            SolidityType::StaticArray(e, n) => {
                let s = spec_abi_head_size(*e, padded) * (n as nat);
                if padded {
                    assert(((s + 31) / 32) * 32 <= s + 31) by (nonlinear_arith);
                }
            },
            _ => {},
        }
    }
}

/// Partial sums never exceed the whole sum.
proof fn lemma_sum_prefix_le(ts: Seq<SolidityType>, i: int, padded: bool)
    requires
        0 <= i <= ts.len(),
    ensures
        spec_head_size_sum(ts.subrange(0, i), padded) <= spec_head_size_sum(ts, padded),
    decreases ts.len() - i,
{
    if i < ts.len() {
        lemma_sum_snoc(ts.subrange(0, i), ts[i], padded);
        assert(ts.subrange(0, i + 1) =~= ts.subrange(0, i).push(ts[i]));
        lemma_sum_prefix_le(ts, i + 1, padded);
    } else {
        assert(ts.subrange(0, i) =~= ts);
    }
}

/// Appending a member adds its head size to the sum.
pub proof fn lemma_sum_snoc(ts: Seq<SolidityType>, x: SolidityType, padded: bool)
    ensures
        spec_head_size_sum(ts.push(x), padded) == spec_head_size_sum(ts, padded)
            + spec_abi_head_size(x, padded),
    decreases ts.len(),
{
    let p = ts.push(x);
    assert(spec_head_size_sum(p, padded) == spec_abi_head_size(p[0], padded) + spec_head_size_sum(
        p.drop_first(),
        padded,
    ));
    if ts.len() == 0 {
        assert(p[0] == x);
        assert(p.drop_first() =~= Seq::empty());
        assert(spec_head_size_sum(ts, padded) == 0);
    } else {
        assert(p[0] == ts[0]);
        assert(p.drop_first() =~= ts.drop_first().push(x));
        lemma_sum_snoc(ts.drop_first(), x, padded);
        assert(spec_head_size_sum(ts, padded) == spec_abi_head_size(ts[0], padded)
            + spec_head_size_sum(ts.drop_first(), padded));
    }
}

impl SolidityType {
    /// Computes the head-encoding byte size of the type, exactly as
    /// `spec_abi_head_size` states it. The bound in `head_size_fits`
    /// only keeps the machine arithmetic inside one word.
    pub fn abi_head_size(&self, padded: bool) -> (r: usize)
        requires
            head_size_fits(*self, padded),
        ensures
            r == spec_abi_head_size(*self, padded),
        decreases self,
    {
        if !self.is_static() {
            return 32;
        }
        match self {
            SolidityType::Primitive(p) => {
                if padded {
                    32
                } else {
                    match p {
                        SolidityPrimitiveType::Bool => 1,
                        SolidityPrimitiveType::Uint(n) => *n / 8,
                        SolidityPrimitiveType::Int(n) => *n / 8,
                        SolidityPrimitiveType::Fixed(m, _) => *m / 8,
                        SolidityPrimitiveType::Ufixed(m, _) => *m / 8,
                        SolidityPrimitiveType::Address(_) => 20,
                    }
                }
            },
            SolidityType::StaticArray(e, n) => {
                proof {
                    lemma_head_size_bounded(**e, padded);
                    assert(spec_abi_head_size(**e, padded) * (*n as nat) <= usize::MAX - 31);
                    if *n as nat > 0 {
                        assert(spec_abi_head_size(**e, padded) <= spec_abi_head_size(**e, padded)
                            * (*n as nat)) by (nonlinear_arith)
                            requires
                                *n as nat >= 1,
                        ;
                    }
                }
                let es = e.abi_head_size(padded);
                let s = es * *n;
                if padded {
                    ((s + 31) / 32) * 32
                } else {
                    s
                }
            },
            SolidityType::BytesStatic(n) => {
                if padded {
                    32
                } else {
                    *n * 8
                }
            },
            SolidityType::Tuple(ts) => {
                proof {
                    assert(self->Tuple_0 == *ts);
                }
                let mut sum: usize = 0;
                let mut i: usize = 0;
                while i < ts.len()
                    invariant
                        0 <= i <= ts@.len(),
                        (*self) is Tuple,
                        self->Tuple_0 == *ts,
                        (*self).spec_is_static(),
                        head_size_fits(*self, padded),
                        sum == spec_head_size_sum(ts@.subrange(0, i as int), padded),
                    decreases ts@.len() - i,
                {
                    proof {
                        assert(decreases_to!(*self => self->Tuple_0));
                        assert(decreases_to!(self->Tuple_0 => self->Tuple_0@[i as int]));
                        assert(self->Tuple_0@ == ts@);
                        assert(all_head_size_fits(self->Tuple_0@, padded));
                        assert(head_size_fits(ts@[i as int], padded));
                        assert(crate::ty::all_static(self->Tuple_0@));
                        assert(ts@[i as int].spec_is_static());
                        lemma_sum_snoc(ts@.subrange(0, i as int), ts@[i as int], padded);
                        assert(ts@.subrange(0, i + 1 as int) =~= ts@.subrange(0, i as int).push(
                            ts@[i as int],
                        ));
                        lemma_sum_prefix_le(ts@, i + 1, padded);
                    }
                    let e = ts[i].abi_head_size(padded);
                    sum = sum + e;
                    i = i + 1;
                }
                proof {
                    assert(ts@.subrange(0, ts@.len() as int) =~= ts@);
                }
                sum
            },
            _ => {
                proof {
                    assert(false);
                }
                32
            },
        }
    }

    /// The name of the bit-mask constant for the type's unpadded size:
    /// `${MAX_U<bits>}` where `<bits>` is eight times the byte size.
    /// The ABI caps every value type at one 32-byte word, so the caller
    /// must have checked the size first.
    pub fn max_value(&self) -> (v: Vec<u8>)
        requires
            head_size_fits(*self, false),
            spec_abi_head_size(*self, false) <= 32,
        ensures
            v@ == seq![36u8, 123, 77, 65, 88, 95, 85] + spec_dec(
                spec_abi_head_size(*self, false) * 8,
            ) + seq![125u8],
    {
        let size = self.abi_head_size(false);
        let bits = size * 8;
        let mut v: Vec<u8> = Vec::new();
        v.push(36);
        v.push(123);
        v.push(77);
        v.push(65);
        v.push(88);
        v.push(95);
        v.push(85);
        let mut d = format_usize(bits);
        v.append(&mut d);
        v.push(125);
        proof {
            assert(v@ =~= seq![36u8, 123, 77, 65, 88, 95, 85] + spec_dec(
                spec_abi_head_size(*self, false) * 8,
            ) + seq![125u8]);
        }
        v
    }
}

/// Computes each type's head size, paired with a structural copy of the
/// type.
pub fn abi_head_sizes_vec(tys: &[SolidityType], padded: bool) -> (r: Vec<(SolidityType, usize)>)
    requires
        all_head_size_fits(tys@, padded),
    ensures
        r@.len() == tys@.len(),
        forall|i: int|
            0 <= i < tys@.len() ==> (#[trigger] r@[i]).0.deep_eq(tys@[i]) && r@[i].1
                == spec_abi_head_size(tys@[i], padded),
{
    let mut r: Vec<(SolidityType, usize)> = Vec::new();
    let mut i: usize = 0;
    while i < tys.len()
        invariant
            0 <= i <= tys@.len(),
            all_head_size_fits(tys@, padded),
            r@.len() == i,
            forall|j: int|
                0 <= j < i ==> (#[trigger] r@[j]).0.deep_eq(tys@[j]) && r@[j].1
                    == spec_abi_head_size(tys@[j], padded),
        decreases tys@.len() - i,
    {
        proof {
            assert(head_size_fits(tys@[i as int], padded));
        }
        let size = tys[i].abi_head_size(padded);
        let copy = tys[i].clone();
        r.push((copy, size));
        i = i + 1;
    }
    r
}

/// Computes the sum of the types' head sizes.
pub fn abi_head_sizes_sum(tys: &[SolidityType], padded: bool) -> (r: usize)
    requires
        all_head_size_fits(tys@, padded),
        spec_head_size_sum(tys@, padded) <= usize::MAX,
    ensures
        r == spec_head_size_sum(tys@, padded),
{
    let mut sum: usize = 0;
    let mut i: usize = 0;
    while i < tys.len()
        invariant
            0 <= i <= tys@.len(),
            all_head_size_fits(tys@, padded),
            spec_head_size_sum(tys@, padded) <= usize::MAX,
            sum == spec_head_size_sum(tys@.subrange(0, i as int), padded),
        decreases tys@.len() - i,
    {
        proof {
            assert(head_size_fits(tys@[i as int], padded));
            lemma_sum_snoc(tys@.subrange(0, i as int), tys@[i as int], padded);
            assert(tys@.subrange(0, i + 1 as int) =~= tys@.subrange(0, i as int).push(
                tys@[i as int],
            ));
            lemma_sum_prefix_le(tys@, i + 1, padded);
        }
        let e = tys[i].abi_head_size(padded);
        sum = sum + e;
        i = i + 1;
    }
    proof {
        assert(tys@.subrange(0, tys@.len() as int) =~= tys@);
    }
    sum
}

/// Every padded head size is a whole number of 32-byte words.
pub proof fn lemma_padded_head_size_aligned(t: SolidityType)
    ensures
        spec_abi_head_size(t, true) % 32 == 0,
    decreases t,
{
    if t.spec_is_static() {
        match t {
            SolidityType::StaticArray(e, n) => {
                let s = spec_abi_head_size(*e, true) * (n as nat);
                assert((((s + 31) / 32) * 32) % 32 == 0) by (nonlinear_arith);
            },
            SolidityType::Tuple(ts) => {
                assert(decreases_to!(t => t->Tuple_0));
                assert(decreases_to!(t->Tuple_0 => t->Tuple_0@));
                lemma_padded_sum_aligned(ts@);
            },
            _ => {},
        }
    }
}

proof fn lemma_padded_sum_aligned(ts: Seq<SolidityType>)
    ensures
        spec_head_size_sum(ts, true) % 32 == 0,
    decreases ts,
{
    if ts.len() > 0 {
        assert(decreases_to!(ts => ts[0]));
        assert(ts.drop_first() == ts.subrange(1, ts.len() as int));
        assert(decreases_to!(ts => ts.subrange(1, ts.len() as int)));
        lemma_padded_head_size_aligned(ts[0]);
        lemma_padded_sum_aligned(ts.drop_first());
        let a = spec_abi_head_size(ts[0], true);
        let b = spec_head_size_sum(ts.drop_first(), true);
        assert(a % 32 == 0 && b % 32 == 0 ==> (a + b) % 32 == 0) by (nonlinear_arith);
    }
}

/// Whether every `bytes<N>` in the type fits one word unpadded, the
/// region where padding can only grow a head size. A `bytes<N>` with
/// `N > 4` takes `N*8 > 32` bytes unpadded but one 32-byte word padded,
/// so padding shrinks it.
pub open spec fn bytes_fit_word(t: SolidityType) -> bool
    decreases t,
    via bytes_fit_word_dec
{
    match t {
        SolidityType::BytesStatic(n) => n <= 4,
        SolidityType::Tuple(ts) => all_bytes_fit_word(ts@),
        SolidityType::DynamicArray(e) => bytes_fit_word(*e),
        SolidityType::StaticArray(e, _) => bytes_fit_word(*e),
        _ => true,
    }
}

#[via_fn]
proof fn bytes_fit_word_dec(t: SolidityType) {
    if t is Tuple {
        assert(decreases_to!(t => t->Tuple_0));
        assert(decreases_to!(t->Tuple_0 => t->Tuple_0@));
    }
}

/// `bytes_fit_word` for every member.
pub open spec fn all_bytes_fit_word(ts: Seq<SolidityType>) -> bool
    decreases ts,
{
    forall|i: int| 0 <= i < ts.len() ==> bytes_fit_word(#[trigger] ts[i])
}

/// Padding never shrinks a head size, for any well-formed type whose
/// static byte strings fit one word.
pub proof fn lemma_padding_monotone(t: SolidityType)
    requires
        t.wf(),
        bytes_fit_word(t),
    ensures
        spec_abi_head_size(t, false) <= spec_abi_head_size(t, true),
    decreases t,
{
    if t.spec_is_static() {
        match t {
            SolidityType::Primitive(p) => {
                assert(spec_prim_head_size(p, false) <= 32);
            },
            SolidityType::StaticArray(e, n) => {
                lemma_padding_monotone(*e);
                let su = spec_abi_head_size(*e, false) * (n as nat);
                let sp = spec_abi_head_size(*e, true) * (n as nat);
                assert(su <= sp) by (nonlinear_arith)
                    requires
                        spec_abi_head_size(*t->StaticArray_0, false) <= spec_abi_head_size(
                            *t->StaticArray_0,
                            true,
                        ),
                        su == spec_abi_head_size(*t->StaticArray_0, false) * (n as nat),
                        sp == spec_abi_head_size(*t->StaticArray_0, true) * (n as nat),
                ;
                assert(sp <= ((sp + 31) / 32) * 32) by (nonlinear_arith);
            },
            SolidityType::Tuple(ts) => {
                assert(decreases_to!(t => t->Tuple_0));
                assert(decreases_to!(t->Tuple_0 => t->Tuple_0@));
                lemma_padding_monotone_sum(ts@);
            },
            _ => {},
        }
    }
}

proof fn lemma_padding_monotone_sum(ts: Seq<SolidityType>)
    requires
        crate::ty::all_wf(ts),
        all_bytes_fit_word(ts),
    ensures
        spec_head_size_sum(ts, false) <= spec_head_size_sum(ts, true),
    decreases ts,
{
    if ts.len() > 0 {
        assert(decreases_to!(ts => ts[0]));
        assert(ts.drop_first() == ts.subrange(1, ts.len() as int));
        assert(decreases_to!(ts => ts.subrange(1, ts.len() as int)));
        assert(ts[0].wf());
        assert(bytes_fit_word(ts[0]));
        lemma_padding_monotone(ts[0]);
        assert(forall|i: int| 0 <= i < ts.drop_first().len() ==> (#[trigger] ts.drop_first()[i])
            == ts[i + 1]);
        lemma_padding_monotone_sum(ts.drop_first());
    }
}

} // verus!
