//! Elements of the prime field that the circuit is written over: the base
//! field of the Pallas curve. The arithmetic itself is done by `pasta_curves`
//! (reached through `halo2_proofs`); this module gives each element a value in
//! `0 .. modulus()` that contracts can speak of.
use ff::Field;
use ff::PrimeField;
use halo2_proofs::pasta::Fp;
use vstd::prelude::*;

verus! {

/// The field's modulus `p = 0x40000000000000000000000000000000224698fc094cf91b992d30ed00000001`.
pub open spec fn modulus() -> int {
    (0x4000000000000000_0000000000000000 * 0x1_0000000000000000 * 0x1_0000000000000000
        + 0x224698fc094cf91b_992d30ed00000001) as int
}

/// The unsigned integer that a little-endian byte string stands for.
pub open spec fn le_value(s: Seq<u8>) -> int
    decreases s.len(),
{
    if s.len() == 0 {
        0
    } else {
        s[0] as int + 256 * le_value(s.subrange(1, s.len() as int))
    }
}

/// A little-endian value is never negative.
proof fn lemma_le_value_nonneg(s: Seq<u8>)
    ensures
        le_value(s) >= 0,
    decreases s.len(),
{
    if s.len() > 0 {
        lemma_le_value_nonneg(s.subrange(1, s.len() as int));
    }
}

/// Field addition on canonical values.
pub open spec fn fadd(a: int, b: int) -> int {
    (a + b) % modulus()
}

/// Field subtraction on canonical values (`%` is Euclidean, so the result is canonical).
pub open spec fn fsub(a: int, b: int) -> int {
    (a - b) % modulus()
}

/// Field multiplication on canonical values.
pub open spec fn fmul(a: int, b: int) -> int {
    (a * b) % modulus()
}

/// `y` is the inverse of `x`, or `x` is zero and so is `y`: the convention
/// that the inverse of zero is zero.
pub open spec fn inverse_or_zero(x: int, y: int) -> bool {
    if x == 0 {
        y == 0
    } else {
        fmul(x, y) == 1
    }
}

/// A field element, held as its canonical little-endian encoding.
#[derive(Clone, Copy, Debug)]
pub struct Felt {
    bytes: [u8; 32],
}

impl Felt {
    /// The integer in `0 .. modulus()` that this element stands for.
    pub closed spec fn val(self) -> int {
        le_value(self.bytes@)
    }

    /// The encoding is canonical.
    pub open spec fn wf(self) -> bool {
        0 <= self.val() < modulus()
    }

    /// Relies on `Fp: From<u64>`: the element whose value is `x`.
    #[verifier::external_body]
    fn fp_from_u64(x: u64) -> (r: Felt)
        ensures
            r.wf(),
            r.val() == x as int,
    {
        Felt { bytes: Fp::from(x).to_repr() }
    }

    /// The element whose value is `x`.
    pub fn from_u64(x: u64) -> (r: Felt)
        ensures
            r.wf(),
            r.val() == x as int,
    {
        Self::fp_from_u64(x)
    }

    /// Relies on `Fp::from_repr`, which accepts a 32-byte little-endian string
    /// exactly when the integer it encodes is below the modulus.
    #[verifier::external_body]
    fn fp_is_canonical(bytes: [u8; 32]) -> (r: bool)
        ensures
            r == (le_value(bytes@) < modulus()),
    {
        bool::from(Fp::from_repr(bytes).is_some())
    }

    /// The element that a 32-byte little-endian string encodes, if that
    /// integer is below the modulus.
    pub fn from_bytes(bytes: [u8; 32]) -> (r: Option<Felt>)
        ensures
            r.is_some() == (le_value(bytes@) < modulus()),
            r matches Some(f) ==> f.wf() && f.val() == le_value(bytes@),
    {
        if Self::fp_is_canonical(bytes) {
            proof {
                lemma_le_value_nonneg(bytes@);
            }
            Some(Felt { bytes })
        } else {
            None
        }
    }

    /// The canonical little-endian encoding.
    pub fn to_bytes(&self) -> (r: [u8; 32])
        ensures
            le_value(r@) == self.val(),
    {
        self.bytes
    }

    /// Relies on `Fp + Fp`: addition modulo the field's modulus.
    #[verifier::external_body]
    pub(crate) fn add(&self, o: &Felt) -> (r: Felt)
        requires
            self.wf(),
            o.wf(),
        ensures
            r.wf(),
            r.val() == fadd(self.val(), o.val()),
    {
        Felt { bytes: (Fp::from_repr(self.bytes).unwrap() + Fp::from_repr(o.bytes).unwrap()).to_repr() }
    }

    /// Relies on `Fp - Fp`: subtraction modulo the field's modulus.
    #[verifier::external_body]
    pub(crate) fn sub(&self, o: &Felt) -> (r: Felt)
        requires
            self.wf(),
            o.wf(),
        ensures
            r.wf(),
            r.val() == fsub(self.val(), o.val()),
    {
        Felt { bytes: (Fp::from_repr(self.bytes).unwrap() - Fp::from_repr(o.bytes).unwrap()).to_repr() }
    }

    /// Relies on `Fp * Fp`: multiplication modulo the field's (prime) modulus,
    /// so a product of two non-zero elements is not zero.
    #[verifier::external_body]
    pub(crate) fn mul(&self, o: &Felt) -> (r: Felt)
        requires
            self.wf(),
            o.wf(),
        ensures
            r.wf(),
            r.val() == fmul(self.val(), o.val()),
            self.val() != 0 && o.val() != 0 ==> r.val() != 0,
    {
        Felt { bytes: (Fp::from_repr(self.bytes).unwrap() * Fp::from_repr(o.bytes).unwrap()).to_repr() }
    }

    /// Relies on `Field::invert`, which fails on zero only, taken with zero
    /// in that case: the inverse, or zero for zero.
    #[verifier::external_body]
    pub(crate) fn invert(&self) -> (r: Felt)
        requires
            self.wf(),
        ensures
            r.wf(),
            inverse_or_zero(self.val(), r.val()),
    {
        Felt { bytes: Fp::from_repr(self.bytes).unwrap().invert().unwrap_or(Fp::zero()).to_repr() }
    }

    /// Relies on `Fp == Fp`: two elements are equal when their values are.
    #[verifier::external_body]
    pub(crate) fn equals(&self, o: &Felt) -> (r: bool)
        requires
            self.wf(),
            o.wf(),
        ensures
            r == (self.val() == o.val()),
    {
        Fp::from_repr(self.bytes).unwrap() == Fp::from_repr(o.bytes).unwrap()
    }
}

/// Facts on products and differences of canonical values that the gates rely on.
pub proof fn lemma_field_basics(a: int, b: int)
    requires
        0 <= a < modulus(),
        0 <= b < modulus(),
    ensures
        fmul(0, a) == 0,
        fmul(a, 0) == 0,
        fmul(1, a) == a,
        fmul(a, 1) == a,
        fadd(0, a) == a,
        fadd(a, 0) == a,
        fsub(a, 0) == a,
        a >= b ==> fsub(a, b) == a - b,
        a < b ==> fsub(a, b) == a - b + modulus(),
        (fsub(a, b) == 0) == (a == b),
        0 <= fadd(a, b) < modulus(),
        0 <= fsub(a, b) < modulus(),
        0 <= fmul(a, b) < modulus(),
{
    assert(0 * a == 0 && a * 0 == 0 && 1 * a == a && a * 1 == a) by (nonlinear_arith);
    vstd::arithmetic::div_mod::lemma_small_mod(0, modulus() as nat);
    vstd::arithmetic::div_mod::lemma_small_mod(a as nat, modulus() as nat);
    if a >= b {
        vstd::arithmetic::div_mod::lemma_small_mod((a - b) as nat, modulus() as nat);
    } else {
        vstd::arithmetic::div_mod::lemma_small_mod((a - b + modulus()) as nat, modulus() as nat);
        vstd::arithmetic::div_mod::lemma_mod_add_multiples_vanish(a - b, modulus());
    }
}

} // verus!
