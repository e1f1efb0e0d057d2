//! One row of the trace and the gates that link it to the next row.
//!
//! Columns: the counter `n`, the pair `(l, r)` of consecutive sequence values,
//! and the zero-test witness `n_inv`. While the counter is not zero a step
//! shifts `(l, r)` to `(r, l + r)` and decrements it; once it is zero the row is
//! frozen: `l' = r`, `r' = r`, `n' = 0`. The zero-test predicate selects the
//! branch, each branch's identities being multiplied by it or by one minus it.
use crate::field::{fadd, fmul, fsub, inverse_or_zero, lemma_field_basics, Felt};
use crate::gadget::{is_zero_expr, is_zero_predicate, lemma_zero_test, zero_gate, zero_gate_expr};
use vstd::prelude::*;

verus! {

/// How many identities the gates hold for each pair of rows.
pub const NUM_GATES: usize = 6;

/// One row of the trace.
#[derive(Clone, Copy, Debug)]
pub struct Row {
    pub n: Felt,
    pub l: Felt,
    pub r: Felt,
    pub n_inv: Felt,
}

impl Row {
    pub open spec fn wf(self) -> bool {
        &&& self.n.wf()
        &&& self.l.wf()
        &&& self.r.wf()
        &&& self.n_inv.wf()
    }

    /// The witness `n_inv` is the one the assignment routine picks.
    pub open spec fn inverse_assigned(self) -> bool {
        inverse_or_zero(self.n.val(), self.n_inv.val())
    }
}

/// The gates on the current row `c` and the next row `x`, in order:
/// the zero test; `l' = r`; `z * (r' - r)`; `z * n'`;
/// `(1 - z) * (l + r - r')`; `(1 - z) * (n - n' - 1)`, where `z` is the
/// zero-test predicate of `c`.
pub open spec fn gate_exprs(c: Row, x: Row) -> Seq<int> {
    let z = is_zero_expr(c.n.val(), c.n_inv.val());
    seq![
        zero_gate_expr(c.n.val(), c.n_inv.val()),
        fsub(x.l.val(), c.r.val()),
        fmul(z, fsub(x.r.val(), c.r.val())),
        fmul(z, x.n.val()),
        fmul(fsub(1, z), fsub(fadd(c.l.val(), c.r.val()), x.r.val())),
        fmul(fsub(1, z), fsub(fsub(c.n.val(), x.n.val()), 1)),
    ]
}

/// Every identity of the gates vanishes on `(c, x)`.
pub open spec fn transition_holds(c: Row, x: Row) -> bool {
    forall|k: int| 0 <= k < NUM_GATES ==> #[trigger] gate_exprs(c, x)[k] == 0
}

/// What one step of the recurrence does: `l' = r`; while the counter is not
/// zero `r' = l + r` and `n' = n - 1`; once it is zero `r' = r` and `n' = 0`.
pub open spec fn step_relation(c: Row, x: Row) -> bool {
    &&& x.l.val() == c.r.val()
    &&& if c.n.val() == 0 {
        x.n.val() == 0 && x.r.val() == c.r.val()
    } else {
        x.n.val() == c.n.val() - 1 && x.r.val() == fadd(c.l.val(), c.r.val())
    }
}

/// A step of the recurrence, with the assigned zero-test witness, satisfies
/// every gate.
pub proof fn lemma_step_satisfies_gates(c: Row, x: Row)
    requires
        c.wf(),
        x.wf(),
        c.inverse_assigned(),
        step_relation(c, x),
    ensures
        transition_holds(c, x),
{
    let n = c.n.val();
    lemma_zero_test(n, c.n_inv.val());
    let z = is_zero_expr(n, c.n_inv.val());
    lemma_field_basics(x.l.val(), c.r.val());
    lemma_field_basics(x.r.val(), c.r.val());
    lemma_field_basics(c.l.val(), c.r.val());
    lemma_field_basics(fadd(c.l.val(), c.r.val()), x.r.val());
    lemma_field_basics(n, x.n.val());
    lemma_field_basics(1, 0);
    lemma_field_basics(1, 1);
    lemma_field_basics(x.n.val(), 0);
    lemma_field_basics(fsub(n, x.n.val()), 1);
    lemma_field_basics(fsub(x.r.val(), c.r.val()), 0);
    lemma_field_basics(fsub(fadd(c.l.val(), c.r.val()), x.r.val()), 0);
    lemma_field_basics(fsub(fsub(n, x.n.val()), 1), 0);
    assert(gate_exprs(c, x)[0] == 0);
    assert(gate_exprs(c, x)[1] == 0);
    assert(gate_exprs(c, x)[2] == 0);
    assert(gate_exprs(c, x)[3] == 0);
    assert(gate_exprs(c, x)[4] == 0);
    assert(gate_exprs(c, x)[5] == 0);
}

/// Once the counter of a row is zero, the gates force the next row to be its
/// frozen copy, whatever zero-test witness stands in the row.
pub proof fn lemma_frozen_step(c: Row, x: Row)
    requires
        c.wf(),
        x.wf(),
        c.n.val() == 0,
        transition_holds(c, x),
    ensures
        x.n.val() == 0,
        x.l.val() == c.r.val(),
        x.r.val() == c.r.val(),
{
    lemma_zero_test(0, c.n_inv.val());
    lemma_field_basics(x.l.val(), c.r.val());
    lemma_field_basics(x.r.val(), c.r.val());
    lemma_field_basics(x.n.val(), 0);
    lemma_field_basics(fsub(x.r.val(), c.r.val()), 0);
    assert(gate_exprs(c, x)[1] == 0);
    assert(gate_exprs(c, x)[2] == 0);
    assert(gate_exprs(c, x)[3] == 0);
}

/// Evaluates the gates on `(c, x)`.
pub fn gate_values(c: &Row, x: &Row) -> (r: Vec<Felt>)
    requires
        c.wf(),
        x.wf(),
    ensures
        r@.len() == NUM_GATES,
        forall|k: int|
            0 <= k < NUM_GATES ==> (#[trigger] r@[k]).wf() && r@[k].val() == gate_exprs(*c, *x)[k],
{
    let one = Felt::from_u64(1);
    let z = is_zero_predicate(&c.n, &c.n_inv);
    let not_z = one.sub(&z);
    let mut v: Vec<Felt> = Vec::new();
    v.push(zero_gate(&c.n, &c.n_inv));
    v.push(x.l.sub(&c.r));
    v.push(z.mul(&x.r.sub(&c.r)));
    v.push(z.mul(&x.n));
    v.push(not_z.mul(&c.l.add(&c.r).sub(&x.r)));
    v.push(not_z.mul(&c.n.sub(&x.n).sub(&one)));
    v
}

/// The first row: the counter `n` and the seeds `(l0, l1)`, with the
/// zero-test witness of `n`.
pub fn first_row(l0: &Felt, l1: &Felt, n: u64) -> (r: Row)
    requires
        l0.wf(),
        l1.wf(),
    ensures
        r.wf(),
        r.inverse_assigned(),
        r.n.val() == n as int,
        r.l.val() == l0.val(),
        r.r.val() == l1.val(),
{
    let nf = Felt::from_u64(n);
    let n_inv = nf.invert();
    Row { n: nf, l: *l0, r: *l1, n_inv }
}

/// The row after `c`: with `z` the zero-test predicate of `c`,
/// `n' = z * n + (1 - z) * (n - 1)`, `l' = r`, `r' = z * r + (1 - z) * (l + r)`,
/// and `n_inv'` the inverse of `n'` (zero for zero). It is one step of the
/// recurrence and satisfies every gate together with `c`.
pub fn next_row(c: &Row) -> (r: Row)
    requires
        c.wf(),
        c.inverse_assigned(),
    ensures
        r.wf(),
        r.inverse_assigned(),
        step_relation(*c, r),
        transition_holds(*c, r),
{
    let one = Felt::from_u64(1);
    let z = is_zero_predicate(&c.n, &c.n_inv);
    let not_z = one.sub(&z);
    let next_n = z.mul(&c.n).add(&not_z.mul(&c.n.sub(&one)));
    let next_r = z.mul(&c.r).add(&not_z.mul(&c.l.add(&c.r)));
    let next_n_inv = next_n.invert();
    let r = Row { n: next_n, l: c.r, r: next_r, n_inv: next_n_inv };
    proof {
        let n = c.n.val();
        lemma_zero_test(n, c.n_inv.val());
        lemma_field_basics(1, 0);
        lemma_field_basics(1, 1);
        lemma_field_basics(n, 1);
        lemma_field_basics(c.r.val(), 0);
        lemma_field_basics(c.l.val(), c.r.val());
        lemma_field_basics(fsub(n, 1), 0);
        lemma_field_basics(fadd(c.l.val(), c.r.val()), 0);
        lemma_field_basics(0, fsub(n, 1));
        lemma_field_basics(0, fadd(c.l.val(), c.r.val()));
        lemma_field_basics(n, 0);
        lemma_field_basics(c.r.val(), 0);
        lemma_step_satisfies_gates(*c, r);
    }
    r
}

} // verus!
