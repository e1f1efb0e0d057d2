//! The public binding and the constraint checker: which trace cells are the
//! public values, and whether a trace satisfies every gate and every binding.
use crate::field::{fadd, fmul, fsub, lemma_field_basics, modulus, Felt};
use crate::gates::{
    gate_exprs, gate_values, lemma_frozen_step, lemma_step_satisfies_gates, step_relation,
    transition_holds, Row, NUM_GATES,
};
use crate::trace::{
    fib, honest_row, honest_trace, lemma_honest_rows_step, lemma_seq_step, result_value, seq_value,
};
use vstd::prelude::*;

verus! {

/// How many public values a trace is bound to.
pub const NUM_PUBLIC: usize = 4;

/// Why a trace was rejected.
#[derive(Clone, Copy, Debug, PartialEq, Eq, Structural)]
pub enum CheckFailure {
    /// The trace has no row, or the public values are not `NUM_PUBLIC`.
    Shape,
    /// The identity `index` of the gates fails between `row` and `row + 1`.
    Gate { row: usize, index: usize },
    /// The bound cell `index` differs from the public value `index`.
    Public { index: usize },
}

/// The values of a sequence of field elements.
pub open spec fn values(p: Seq<Felt>) -> Seq<int> {
    p.map_values(|f: Felt| f.val())
}

/// The bound cells, in the order of the public values: the first row's `l`
/// (seed `l0`), its `r` (seed `l1`), its counter `n`, and the last row's `r`
/// (the result).
pub open spec fn binding_exprs(t: Seq<Row>) -> Seq<int> {
    seq![t[0].l.val(), t[0].r.val(), t[0].n.val(), t[t.len() - 1].r.val()]
}

/// The gates hold between every row and the next.
pub open spec fn gates_hold(t: Seq<Row>) -> bool {
    forall|i: int| 0 <= i < t.len() - 1 ==> transition_holds(#[trigger] t[i], t[i + 1])
}

/// Every cell of the trace is a field element.
pub open spec fn trace_wf(t: Seq<Row>) -> bool {
    forall|i: int| 0 <= i < t.len() ==> (#[trigger] t[i]).wf()
}

/// The trace satisfies every gate and is bound to the public values `p`.
pub open spec fn accepts(t: Seq<Row>, p: Seq<int>) -> bool {
    &&& t.len() > 0
    &&& p.len() == NUM_PUBLIC
    &&& gates_hold(t)
    &&& binding_exprs(t) == p
}

/// The public values that the trace is bound to.
pub fn public_inputs(t: &Vec<Row>) -> (r: Vec<Felt>)
    requires
        t@.len() > 0,
    ensures
        r@ == seq![t@[0].l, t@[0].r, t@[0].n, t@[t@.len() - 1].r],
        values(r@) == binding_exprs(t@),
{
    let last = t.len() - 1;
    let r = vec![t[0].l, t[0].r, t[0].n, t[last].r];
    assert(values(r@) =~= binding_exprs(t@));
    r
}

/// Checks the trace against the gates and the public values, and names the
/// first check that fails: the gates row by row, then the bindings in order.
pub fn check_trace(t: &Vec<Row>, public: &Vec<Felt>) -> (r: Result<(), CheckFailure>)
    requires
        trace_wf(t@),
        forall|j: int| 0 <= j < public@.len() ==> (#[trigger] public@[j]).wf(),
    ensures
        r.is_ok() == accepts(t@, values(public@)),
        (r == Err::<(), CheckFailure>(CheckFailure::Shape)) == (t@.len() == 0 || public@.len()
            != NUM_PUBLIC),
        r matches Err(CheckFailure::Gate { row, index }) ==> {
            &&& row + 1 < t@.len()
            &&& index < NUM_GATES
            &&& gate_exprs(t@[row as int], t@[row + 1])[index as int] != 0
            &&& forall|k: int| 0 <= k < index ==> #[trigger] gate_exprs(t@[row as int], t@[row + 1])[k] == 0
            &&& forall|i: int| 0 <= i < row ==> transition_holds(#[trigger] t@[i], t@[i + 1])
        },
        r matches Err(CheckFailure::Public { index }) ==> {
            &&& gates_hold(t@)
            &&& index < NUM_PUBLIC
            &&& binding_exprs(t@)[index as int] != public@[index as int].val()
            &&& forall|j: int| 0 <= j < index ==> binding_exprs(t@)[j] == public@[j].val()
        },
{
    if t.len() == 0 || public.len() != NUM_PUBLIC {
        return Err(CheckFailure::Shape);
    }
    let mut row: usize = 0;
    while row < t.len() - 1
        invariant
            0 <= row < t@.len(),
            public@.len() == NUM_PUBLIC,
            trace_wf(t@),
            forall|i: int| 0 <= i < row ==> transition_holds(#[trigger] t@[i], t@[i + 1]),
        decreases t@.len() - row,
    {
        let g = gate_values(&t[row], &t[row + 1]);
        let zero = Felt::from_u64(0);
        let mut index: usize = 0;
        while index < NUM_GATES
            invariant
                0 <= index <= NUM_GATES,
                row + 1 < t@.len(),
                g@.len() == NUM_GATES,
                zero.wf(),
                zero.val() == 0,
                forall|k: int|
                    0 <= k < NUM_GATES ==> (#[trigger] g@[k]).wf() && g@[k].val() == gate_exprs(
                        t@[row as int],
                        t@[row + 1],
                    )[k],
                forall|k: int| 0 <= k < index ==> #[trigger] gate_exprs(t@[row as int], t@[row + 1])[k] == 0,
                t@.len() > 0,
                public@.len() == NUM_PUBLIC,
                forall|i: int| 0 <= i < row ==> transition_holds(#[trigger] t@[i], t@[i + 1]),
            decreases NUM_GATES - index,
        {
            if !g[index].equals(&zero) {
                return Err(CheckFailure::Gate { row, index });
            }
            index = index + 1;
        }
        assert(transition_holds(t@[row as int], t@[row + 1]));
        row = row + 1;
    }
    assert(gates_hold(t@));
    let bound = public_inputs(t);
    let mut j: usize = 0;
    while j < NUM_PUBLIC
        invariant
            0 <= j <= NUM_PUBLIC,
            public@.len() == NUM_PUBLIC,
            bound@.len() == NUM_PUBLIC,
            values(bound@) == binding_exprs(t@),
            bound@ == seq![t@[0].l, t@[0].r, t@[0].n, t@[t@.len() - 1].r],
            trace_wf(t@),
            t@.len() > 0,
            gates_hold(t@),
            forall|i: int| 0 <= i < public@.len() ==> (#[trigger] public@[i]).wf(),
            forall|k: int| 0 <= k < j ==> binding_exprs(t@)[k] == public@[k].val(),
        decreases NUM_PUBLIC - j,
    {
        assert(values(bound@)[j as int] == bound@[j as int].val());
        assert(t@[0].wf() && t@[t@.len() - 1].wf());
        if !bound[j].equals(&public[j]) {
            return Err(CheckFailure::Public { index: j });
        }
        j = j + 1;
    }
    assert(values(public@) =~= binding_exprs(t@));
    Ok(())
}

/// Completeness: the trace built for `n` steps from `(l0, l1)`, with
/// `n` below the trace height, satisfies every gate and is accepted against
/// the public values `(l0, l1, n, F(n + 1))`. From the seeds `(0, 1)` the
/// result is the Fibonacci number `fib(n + 1)`.
pub proof fn lemma_honest_trace_accepted(t: Seq<Row>, l0: int, l1: int, n: int, rows: int)
    requires
        0 <= l0 < modulus(),
        0 <= l1 < modulus(),
        0 <= n < rows,
        honest_trace(t, l0, l1, n, rows),
    ensures
        accepts(t, seq![l0, l1, n, result_value(l0, l1, n)]),
{
    assert forall|i: int| 0 <= i < t.len() - 1 implies transition_holds(#[trigger] t[i], t[i + 1]) by {
        assert(honest_row(t[i], l0, l1, n, i));
        assert(honest_row(t[i + 1], l0, l1, n, i + 1));
        lemma_honest_rows_step(t[i], t[i + 1], l0, l1, n, i);
        lemma_step_satisfies_gates(t[i], t[i + 1]);
    }
    assert(honest_row(t[0], l0, l1, n, 0));
    assert(honest_row(t[rows - 1], l0, l1, n, rows - 1));
    vstd::arithmetic::div_mod::lemma_small_mod(l0 as nat, modulus() as nat);
    vstd::arithmetic::div_mod::lemma_small_mod(l1 as nat, modulus() as nat);
    assert(seq_value(l0, l1, 1) == l1);
    assert(binding_exprs(t) =~= seq![l0, l1, n, result_value(l0, l1, n)]);
}

/// From the seeds `(0, 1)`: the trace for `n` steps, `n` below the height, is
/// accepted against the public values `(0, 1, n, fib(n + 1))`.
pub proof fn lemma_fibonacci_trace_accepted(t: Seq<Row>, n: int, rows: int)
    requires
        0 <= n < rows,
        honest_trace(t, 0, 1, n, rows),
    ensures
        accepts(t, seq![0, 1, n, fib((n + 1) as nat) % modulus()]),
{
    lemma_honest_trace_accepted(t, 0, 1, n, rows);
}

/// Soundness against a wrong result: the trace built for `n` steps from
/// `(l0, l1)` is rejected against any claimed result other than `F(n + 1)`.
pub proof fn lemma_wrong_result_rejected(
    t: Seq<Row>,
    l0: int,
    l1: int,
    n: int,
    rows: int,
    claimed: int,
)
    requires
        0 <= n < rows,
        honest_trace(t, l0, l1, n, rows),
        claimed != result_value(l0, l1, n),
    ensures
        !accepts(t, seq![l0, l1, n, claimed]),
{
    assert(honest_row(t[rows - 1], l0, l1, n, rows - 1));
    if accepts(t, seq![l0, l1, n, claimed]) {
        assert(binding_exprs(t)[3] == seq![l0, l1, n, claimed][3]);
    }
}

/// Padding is frozen: in any trace that satisfies the gates, once a row's
/// counter is zero every later row has counter zero and the same result `r`
/// (and `l` equal to it), so a trace whose padding drifts is rejected.
pub proof fn lemma_padding_frozen(t: Seq<Row>, i: int, j: int)
    requires
        trace_wf(t),
        gates_hold(t),
        0 <= i <= j < t.len(),
        t[i].n.val() == 0,
    ensures
        t[j].n.val() == 0,
        t[j].r.val() == t[i].r.val(),
        i < j ==> t[j].l.val() == t[i].r.val(),
    decreases j - i,
{
    if i < j {
        lemma_padding_frozen(t, i, j - 1);
        assert(transition_holds(t[j - 1], t[j - 1 + 1]));
        lemma_frozen_step(t[j - 1], t[j]);
    }
}

/// The modulus has no zero divisors: a product of two non-zero canonical
/// values is not zero. This is what a prime modulus gives.
pub open spec fn no_zero_divisors() -> bool {
    forall|a: int, b: int| 0 < a < modulus() && 0 < b < modulus() ==> #[trigger] fmul(a, b) != 0
}

/// Where the modulus has no zero divisors, the gates force a row with a
/// non-zero counter to be followed by one step of the recurrence, whatever
/// zero-test witness stands in the row.
pub proof fn lemma_live_step_forced(c: Row, x: Row)
    requires
        no_zero_divisors(),
        c.wf(),
        x.wf(),
        c.n.val() != 0,
        transition_holds(c, x),
    ensures
        step_relation(c, x),
{
    let n = c.n.val();
    let m = fmul(n, c.n_inv.val());
    lemma_field_basics(n, c.n_inv.val());
    lemma_field_basics(1, m);
    assert(gate_exprs(c, x)[0] == 0);
    if fsub(1, m) != 0 {
        assert(fmul(n, fsub(1, m)) != 0);
    }
    assert(m == 1);
    lemma_field_basics(1, 1);
    let d = fsub(fsub(n, x.n.val()), 1);
    lemma_field_basics(n, x.n.val());
    lemma_field_basics(fsub(n, x.n.val()), 1);
    lemma_field_basics(d, 0);
    assert(gate_exprs(c, x)[5] == 0);
    assert(fsub(n, x.n.val()) == 1);
    let e = fsub(fadd(c.l.val(), c.r.val()), x.r.val());
    lemma_field_basics(c.l.val(), c.r.val());
    lemma_field_basics(fadd(c.l.val(), c.r.val()), x.r.val());
    lemma_field_basics(e, 0);
    assert(gate_exprs(c, x)[4] == 0);
    lemma_field_basics(x.l.val(), c.r.val());
    assert(gate_exprs(c, x)[1] == 0);
}

/// The counter and the sequence pair of row `i`, as the recurrence from the
/// first row `(n, l0, l1)` gives them.
pub open spec fn forced_row(row: Row, l0: int, l1: int, n: int, i: int) -> bool {
    &&& row.n.val() == if i <= n {
        n - i
    } else {
        0
    }
    &&& row.l.val() == if i <= n {
        seq_value(l0, l1, i as nat) % modulus()
    } else {
        result_value(l0, l1, n)
    }
    &&& row.r.val() == if i <= n {
        seq_value(l0, l1, (i + 1) as nat) % modulus()
    } else {
        result_value(l0, l1, n)
    }
}

proof fn lemma_forced_rows(t: Seq<Row>, l0: int, l1: int, n: int, i: int)
    requires
        no_zero_divisors(),
        trace_wf(t),
        gates_hold(t),
        0 <= n,
        0 <= i < t.len(),
        t[0].n.val() == n,
        t[0].l.val() == l0,
        t[0].r.val() == l1,
    ensures
        forced_row(t[i], l0, l1, n, i),
    decreases i,
{
    if i == 0 {
        assert(t[0].wf());
        vstd::arithmetic::div_mod::lemma_small_mod(l0 as nat, modulus() as nat);
        vstd::arithmetic::div_mod::lemma_small_mod(l1 as nat, modulus() as nat);
        assert(seq_value(l0, l1, 1) == l1);
    } else {
        let k = i - 1;
        lemma_forced_rows(t, l0, l1, n, k);
        assert(t[k].wf() && t[i].wf());
        assert(transition_holds(t[k], t[k + 1]));
        if k < n {
            lemma_live_step_forced(t[k], t[i]);
            lemma_seq_step(l0, l1, k as nat);
            assert((k + 1 + 1) as nat == (k as nat) + 2);
        } else {
            lemma_frozen_step(t[k], t[i]);
        }
    }
}

/// Soundness of the zero-test encoding where the modulus has no zero divisors:
/// any trace of field elements accepted against `(l0, l1, n, result)`, with
/// `n` below the trace height, has `result = F(n + 1)`, whatever witnesses it
/// holds.
pub proof fn lemma_accepted_result_forced(t: Seq<Row>, l0: int, l1: int, n: int, result: int)
    requires
        no_zero_divisors(),
        trace_wf(t),
        0 <= n < t.len(),
        accepts(t, seq![l0, l1, n, result]),
    ensures
        result == result_value(l0, l1, n),
{
    assert(binding_exprs(t)[0] == l0);
    assert(binding_exprs(t)[1] == l1);
    assert(binding_exprs(t)[2] == n);
    assert(binding_exprs(t)[3] == result);
    lemma_forced_rows(t, l0, l1, n, t.len() - 1);
}

} // verus!
