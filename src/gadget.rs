//! The zero-test gadget: a witness `n_inv` beside a value `n`, one identity
//! `n * (1 - n * n_inv) = 0`, and the predicate `1 - n * n_inv`, which is 1
//! when `n` is zero and 0 when `n_inv` is the inverse of `n`.
use crate::field::{fmul, fsub, inverse_or_zero, lemma_field_basics, modulus, Felt};
use vstd::prelude::*;

verus! {

/// The predicate `1 - n * n_inv`.
pub open spec fn is_zero_expr(n: int, n_inv: int) -> int {
    fsub(1, fmul(n, n_inv))
}

/// The gadget's identity `n * (1 - n * n_inv)`, which must vanish.
pub open spec fn zero_gate_expr(n: int, n_inv: int) -> int {
    fmul(n, is_zero_expr(n, n_inv))
}

/// For `n = 0` the predicate is 1 and the identity holds whatever `n_inv` is;
/// for `n != 0` the predicate is 0 exactly when `n * n_inv = 1`; and with the
/// witness that the assignment routine picks (the inverse, or zero for zero)
/// the identity holds and the predicate is 1 or 0 as `n` is zero or not.
pub proof fn lemma_zero_test(n: int, n_inv: int)
    requires
        0 <= n < modulus(),
        0 <= n_inv < modulus(),
    ensures
        n == 0 ==> is_zero_expr(n, n_inv) == 1 && zero_gate_expr(n, n_inv) == 0,
        n != 0 ==> (is_zero_expr(n, n_inv) == 0) == (fmul(n, n_inv) == 1),
        inverse_or_zero(n, n_inv) ==> zero_gate_expr(n, n_inv) == 0 && is_zero_expr(n, n_inv) == (
        if n == 0 {
            1int
        } else {
            0int
        }),
{
    lemma_field_basics(n, n_inv);
    lemma_field_basics(n_inv, n);
    let m = fmul(n, n_inv);
    lemma_field_basics(1, m);
    lemma_field_basics(1, 0);
    let z = is_zero_expr(n, n_inv);
    lemma_field_basics(z, n);
    lemma_field_basics(n, z);
}

/// Evaluates the predicate `1 - n * n_inv`.
pub fn is_zero_predicate(n: &Felt, n_inv: &Felt) -> (r: Felt)
    requires
        n.wf(),
        n_inv.wf(),
    ensures
        r.wf(),
        r.val() == is_zero_expr(n.val(), n_inv.val()),
{
    let one = Felt::from_u64(1);
    one.sub(&n.mul(n_inv))
}

/// Evaluates the gadget's identity `n * (1 - n * n_inv)`.
pub fn zero_gate(n: &Felt, n_inv: &Felt) -> (r: Felt)
    requires
        n.wf(),
        n_inv.wf(),
    ensures
        r.wf(),
        r.val() == zero_gate_expr(n.val(), n_inv.val()),
        n.val() != 0 && is_zero_expr(n.val(), n_inv.val()) != 0 ==> r.val() != 0,
{
    let z = is_zero_predicate(n, n_inv);
    n.mul(&z)
}

/// Whether the gadget's identity holds for `n` and the witness `n_inv`: it
/// does exactly when `n` is zero or `n_inv` is the inverse of `n`, so any other
/// witness for a non-zero `n` is rejected.
pub fn zero_gate_holds(n: &Felt, n_inv: &Felt) -> (r: bool)
    requires
        n.wf(),
        n_inv.wf(),
    ensures
        r == (n.val() == 0 || fmul(n.val(), n_inv.val()) == 1),
{
    proof {
        lemma_zero_test(n.val(), n_inv.val());
    }
    let g = zero_gate(n, n_inv);
    let zero = Felt::from_u64(0);
    g.equals(&zero)
}

} // verus!
