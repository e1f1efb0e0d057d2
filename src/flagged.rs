//! The same recurrence under the other encoding of "is the loop still
//! running": an explicit boolean column `s` instead of the zero test. The
//! flag is 1 on the live rows and 0 on the frozen ones; the gates keep it
//! boolean, keep it at 0 once it is 0, tie it to the counter through an
//! inverse witness `n_inv` (a live row has `n * n_inv = 1`, so a non-zero
//! counter; a frozen row has counter 0), and select with it between
//! decrement-and-accumulate and freeze-and-copy. The seeds are constants of
//! the circuit; the public values are the counter and the result.
use crate::checker::{no_zero_divisors, values, CheckFailure};
use crate::field::{fadd, fmul, fsub, inverse_or_zero, lemma_field_basics, modulus, Felt};
use crate::trace::{lemma_seq_step, result_value, seq_value, ConfigError};
use vstd::prelude::*;

verus! {

/// How many identities the flagged gates hold for each pair of rows.
pub const NUM_FLAG_GATES: usize = 9;

/// How many public values a flagged trace is bound to.
pub const NUM_FLAG_PUBLIC: usize = 2;

/// One row of a flagged trace: counter, sequence pair, the live flag, and
/// the inverse witness of the counter.
#[derive(Clone, Copy, Debug)]
pub struct FlagRow {
    pub n: Felt,
    pub l: Felt,
    pub r: Felt,
    pub s: Felt,
    pub n_inv: Felt,
}

impl FlagRow {
    pub open spec fn wf(self) -> bool {
        &&& self.n.wf()
        &&& self.l.wf()
        &&& self.r.wf()
        &&& self.s.wf()
        &&& self.n_inv.wf()
    }

    /// The witnesses that the builder assigns: `n_inv` the inverse of the
    /// counter (zero for zero), and the flag 1 exactly when the counter is not
    /// zero.
    pub open spec fn consistent(self) -> bool {
        &&& inverse_or_zero(self.n.val(), self.n_inv.val())
        &&& self.s.val() == if self.n.val() != 0 {
            1int
        } else {
            0int
        }
    }
}

/// The flagged gates on the current row `c` and the next row `x`, in order:
/// `s * (1 - s)`; `s' * (1 - s)`; `s * (n - n' - 1)`; `(1 - s) * n'`;
/// `s * (l + r - r')`; `(1 - s) * (r' - r)`; `l' - r`;
/// `s * (1 - n * n_inv)`; `(1 - s) * n`.
pub open spec fn flag_gate_exprs(c: FlagRow, x: FlagRow) -> Seq<int> {
    let s = c.s.val();
    seq![
        fmul(s, fsub(1, s)),
        fmul(x.s.val(), fsub(1, s)),
        fmul(s, fsub(fsub(c.n.val(), x.n.val()), 1)),
        fmul(fsub(1, s), x.n.val()),
        fmul(s, fsub(fadd(c.l.val(), c.r.val()), x.r.val())),
        fmul(fsub(1, s), fsub(x.r.val(), c.r.val())),
        fsub(x.l.val(), c.r.val()),
        fmul(s, fsub(1, fmul(c.n.val(), c.n_inv.val()))),
        fmul(fsub(1, s), c.n.val()),
    ]
}

/// Every flagged identity vanishes on `(c, x)`.
pub open spec fn flag_transition_holds(c: FlagRow, x: FlagRow) -> bool {
    forall|k: int| 0 <= k < NUM_FLAG_GATES ==> #[trigger] flag_gate_exprs(c, x)[k] == 0
}

/// One step under the flag: `l' = r`; a live row decrements the counter and
/// accumulates, and the next flag is 0 or 1; a frozen row is followed by a
/// frozen copy with counter 0.
pub open spec fn flag_step_relation(c: FlagRow, x: FlagRow) -> bool {
    &&& x.l.val() == c.r.val()
    &&& if c.s.val() == 1 {
        &&& x.n.val() == c.n.val() - 1
        &&& x.r.val() == fadd(c.l.val(), c.r.val())
        &&& (x.s.val() == 0 || x.s.val() == 1)
    } else {
        &&& c.s.val() == 0
        &&& x.s.val() == 0
        &&& x.n.val() == 0
        &&& x.r.val() == c.r.val()
    }
}

/// A step under the flag satisfies every flagged gate.
pub proof fn lemma_flag_step_satisfies_gates(c: FlagRow, x: FlagRow)
    requires
        c.wf(),
        x.wf(),
        c.consistent(),
        flag_step_relation(c, x),
    ensures
        flag_transition_holds(c, x),
{
    let s = c.s.val();
    lemma_field_basics(c.n.val(), c.n_inv.val());
    lemma_field_basics(c.n_inv.val(), c.n.val());
    lemma_field_basics(c.n.val(), 0);
    lemma_field_basics(0, c.n.val());
    lemma_field_basics(1, 0);
    lemma_field_basics(1, 1);
    lemma_field_basics(0, 1);
    lemma_field_basics(x.s.val(), 0);
    lemma_field_basics(x.n.val(), 0);
    lemma_field_basics(x.l.val(), c.r.val());
    lemma_field_basics(x.r.val(), c.r.val());
    lemma_field_basics(c.n.val(), x.n.val());
    lemma_field_basics(c.l.val(), c.r.val());
    lemma_field_basics(fadd(c.l.val(), c.r.val()), x.r.val());
    lemma_field_basics(fsub(c.n.val(), x.n.val()), 1);
    lemma_field_basics(fsub(fsub(c.n.val(), x.n.val()), 1), 0);
    lemma_field_basics(fsub(fadd(c.l.val(), c.r.val()), x.r.val()), 0);
    lemma_field_basics(fsub(x.r.val(), c.r.val()), 0);
    assert(flag_gate_exprs(c, x)[0] == 0);
    assert(flag_gate_exprs(c, x)[1] == 0);
    assert(flag_gate_exprs(c, x)[2] == 0);
    assert(flag_gate_exprs(c, x)[3] == 0);
    assert(flag_gate_exprs(c, x)[4] == 0);
    assert(flag_gate_exprs(c, x)[5] == 0);
    assert(flag_gate_exprs(c, x)[6] == 0);
    assert(flag_gate_exprs(c, x)[7] == 0);
    assert(flag_gate_exprs(c, x)[8] == 0);
}

/// Once a row's flag is 0, the flagged gates force the next row to be a frozen
/// copy: flag 0, counter 0, the same result, and `l` equal to it.
pub proof fn lemma_flag_frozen_step(c: FlagRow, x: FlagRow)
    requires
        c.wf(),
        x.wf(),
        c.s.val() == 0,
        flag_transition_holds(c, x),
    ensures
        x.s.val() == 0,
        x.n.val() == 0,
        x.l.val() == c.r.val(),
        x.r.val() == c.r.val(),
{
    lemma_field_basics(1, 0);
    lemma_field_basics(x.s.val(), 0);
    lemma_field_basics(x.n.val(), 0);
    lemma_field_basics(x.l.val(), c.r.val());
    lemma_field_basics(x.r.val(), c.r.val());
    lemma_field_basics(fsub(x.r.val(), c.r.val()), 0);
    assert(flag_gate_exprs(c, x)[1] == 0);
    assert(flag_gate_exprs(c, x)[3] == 0);
    assert(flag_gate_exprs(c, x)[5] == 0);
    assert(flag_gate_exprs(c, x)[6] == 0);
}

/// Evaluates the flagged gates on `(c, x)`.
pub fn flag_gate_values(c: &FlagRow, x: &FlagRow) -> (r: Vec<Felt>)
    requires
        c.wf(),
        x.wf(),
    ensures
        r@.len() == NUM_FLAG_GATES,
        forall|k: int|
            0 <= k < NUM_FLAG_GATES ==> (#[trigger] r@[k]).wf() && r@[k].val() == flag_gate_exprs(
                *c,
                *x,
            )[k],
{
    let one = Felt::from_u64(1);
    let not_s = one.sub(&c.s);
    let mut v: Vec<Felt> = Vec::new();
    v.push(c.s.mul(&not_s));
    v.push(x.s.mul(&not_s));
    v.push(c.s.mul(&c.n.sub(&x.n).sub(&one)));
    v.push(not_s.mul(&x.n));
    v.push(c.s.mul(&c.l.add(&c.r).sub(&x.r)));
    v.push(not_s.mul(&x.r.sub(&c.r)));
    v.push(x.l.sub(&c.r));
    v.push(c.s.mul(&one.sub(&c.n.mul(&c.n_inv))));
    v.push(not_s.mul(&c.n));
    v
}

/// Row `i` of the flagged trace for `n` steps from `(l0, l1)`: live (flag 1)
/// before row `n`, frozen (flag 0) from it on; counter, sequence pair and
/// inverse witness as in the zero-test encoding.
pub open spec fn honest_flag_row(row: FlagRow, l0: int, l1: int, n: int, i: int) -> bool {
    &&& row.wf()
    &&& inverse_or_zero(row.n.val(), row.n_inv.val())
    &&& row.s.val() == if i < n {
        1int
    } else {
        0int
    }
    &&& row.n.val() == if i <= n {
        n - i
    } else {
        0
    }
    &&& row.l.val() == if i <= n {
        seq_value(l0, l1, i as nat) % modulus()
    } else {
        result_value(l0, l1, n)
    }
    &&& row.r.val() == if i <= n {
        seq_value(l0, l1, (i + 1) as nat) % modulus()
    } else {
        result_value(l0, l1, n)
    }
}

/// The whole flagged trace of height `rows` for `n` steps from `(l0, l1)`.
pub open spec fn honest_flag_trace(t: Seq<FlagRow>, l0: int, l1: int, n: int, rows: int) -> bool {
    &&& t.len() == rows
    &&& forall|i: int| 0 <= i < rows ==> honest_flag_row(#[trigger] t[i], l0, l1, n, i)
}

/// Consecutive rows of the flagged trace are one step apart.
pub proof fn lemma_honest_flag_rows_step(
    c: FlagRow,
    x: FlagRow,
    l0: int,
    l1: int,
    n: int,
    i: int,
)
    requires
        0 <= i,
        0 <= n,
        honest_flag_row(c, l0, l1, n, i),
        honest_flag_row(x, l0, l1, n, i + 1),
    ensures
        flag_step_relation(c, x),
        c.consistent(),
{
    if i < n {
        lemma_seq_step(l0, l1, i as nat);
        assert((i + 1 + 1) as nat == (i as nat) + 2);
    }
}

/// The first row: counter `n`, the seeds, and flag 1 when there is a step to
/// make (0 for `n = 0`).
pub fn flag_first_row(l0: &Felt, l1: &Felt, n: u64) -> (r: FlagRow)
    requires
        l0.wf(),
        l1.wf(),
    ensures
        r.wf(),
        r.n.val() == n as int,
        r.l.val() == l0.val(),
        r.r.val() == l1.val(),
        r.s.val() == if n > 0 {
            1int
        } else {
            0int
        },
        r.consistent(),
{
    let s = if n > 0 {
        Felt::from_u64(1)
    } else {
        Felt::from_u64(0)
    };
    let nf = Felt::from_u64(n);
    let n_inv = nf.invert();
    FlagRow { n: nf, l: *l0, r: *l1, s, n_inv }
}

/// The row after a live row: counter decremented, `(l, r)` shifted to
/// `(r, l + r)`, the inverse witness of the new counter, and the flag dropped
/// to 0 when this was the last step.
pub fn computational_row(c: &FlagRow, is_last: bool) -> (r: FlagRow)
    requires
        c.wf(),
        c.consistent(),
        c.s.val() == 1,
    ensures
        r.wf(),
        r.n.val() == c.n.val() - 1,
        r.l.val() == c.r.val(),
        r.r.val() == fadd(c.l.val(), c.r.val()),
        r.s.val() == if is_last {
            0int
        } else {
            1int
        },
        inverse_or_zero(r.n.val(), r.n_inv.val()),
        is_last == (c.n.val() == 1) ==> r.consistent(),
        flag_step_relation(*c, r),
        flag_transition_holds(*c, r),
{
    let one = Felt::from_u64(1);
    let s = if is_last {
        Felt::from_u64(0)
    } else {
        Felt::from_u64(1)
    };
    let n = c.n.sub(&one);
    let n_inv = n.invert();
    let r = FlagRow { n, l: c.r, r: c.l.add(&c.r), s, n_inv };
    proof {
        lemma_field_basics(c.n.val(), 1);
        lemma_flag_step_satisfies_gates(*c, r);
    }
    r
}

/// The row after a frozen row: its frozen copy, with counter and flag 0.
pub fn padding_row(c: &FlagRow) -> (r: FlagRow)
    requires
        c.wf(),
        c.consistent(),
        c.s.val() == 0,
    ensures
        r.wf(),
        r.consistent(),
        r.n.val() == 0,
        r.l.val() == c.r.val(),
        r.r.val() == c.r.val(),
        r.s.val() == 0,
        flag_step_relation(*c, r),
        flag_transition_holds(*c, r),
{
    let zero = Felt::from_u64(0);
    let r = FlagRow { n: zero, l: c.r, r: c.r, s: zero, n_inv: zero };
    proof {
        lemma_flag_step_satisfies_gates(*c, r);
    }
    r
}

/// Builds the flagged trace of height `rows` for `n` steps from the seeds
/// `(l0, l1)`: `n` live rows, then frozen rows. A counter that does not fit
/// below the height is refused before any row is built.
pub fn build_flag_trace(l0: &Felt, l1: &Felt, n: u64, rows: usize) -> (r: Result<
    Vec<FlagRow>,
    ConfigError,
>)
    requires
        l0.wf(),
        l1.wf(),
    ensures
        r.is_err() == (n as int >= rows as int),
        r matches Err(e) ==> e == ConfigError::CounterOutOfRange,
        r matches Ok(t) ==> honest_flag_trace(t@, l0.val(), l1.val(), n as int, rows as int),
{
    if n as u128 >= rows as u128 {
        return Err(ConfigError::CounterOutOfRange);
    }
    let first = flag_first_row(l0, l1, n);
    proof {
        vstd::arithmetic::div_mod::lemma_small_mod(l0.val() as nat, modulus() as nat);
        vstd::arithmetic::div_mod::lemma_small_mod(l1.val() as nat, modulus() as nat);
        assert(seq_value(l0.val(), l1.val(), 1) == l1.val());
    }
    let mut t: Vec<FlagRow> = Vec::new();
    t.push(first);
    let mut last = first;
    let mut i: usize = 1;
    while i < rows
        invariant
            1 <= i <= rows,
            (n as int) < rows,
            t@.len() == i,
            last == t@[i - 1],
            forall|j: int|
                0 <= j < i ==> honest_flag_row(#[trigger] t@[j], l0.val(), l1.val(), n as int, j),
        decreases rows - i,
    {
        let next = if (i as u64) <= n {
            computational_row(&last, (i as u64) == n)
        } else {
            padding_row(&last)
        };
        proof {
            let k = (i - 1) as int;
            if k < n {
                lemma_seq_step(l0.val(), l1.val(), k as nat);
                assert((k + 1 + 1) as nat == (k as nat) + 2);
            }
        }
        t.push(next);
        last = next;
        i = i + 1;
    }
    Ok(t)
}

/// The flagged bound cells: the first row's counter and the last row's result.
pub open spec fn flag_binding_exprs(t: Seq<FlagRow>) -> Seq<int> {
    seq![t[0].n.val(), t[t.len() - 1].r.val()]
}

/// The flagged gates hold between every row and the next.
pub open spec fn flag_gates_hold(t: Seq<FlagRow>) -> bool {
    forall|i: int| 0 <= i < t.len() - 1 ==> flag_transition_holds(#[trigger] t[i], t[i + 1])
}

/// Every cell of the flagged trace is a field element.
pub open spec fn flag_trace_wf(t: Seq<FlagRow>) -> bool {
    forall|i: int| 0 <= i < t.len() ==> (#[trigger] t[i]).wf()
}

/// The flagged trace starts from the seeds `(l0, l1)`, satisfies every flagged
/// gate and is bound to the public values `p = (n, result)`.
pub open spec fn flag_accepts(t: Seq<FlagRow>, l0: int, l1: int, p: Seq<int>) -> bool {
    &&& t.len() > 0
    &&& p.len() == NUM_FLAG_PUBLIC
    &&& t[0].l.val() == l0
    &&& t[0].r.val() == l1
    &&& flag_gates_hold(t)
    &&& flag_binding_exprs(t) == p
}

/// The public values that the flagged trace is bound to.
pub fn flag_public_inputs(t: &Vec<FlagRow>) -> (r: Vec<Felt>)
    requires
        t@.len() > 0,
    ensures
        r@ == seq![t@[0].n, t@[t@.len() - 1].r],
        values(r@) == flag_binding_exprs(t@),
{
    let last = t.len() - 1;
    let r = vec![t[0].n, t[last].r];
    assert(values(r@) =~= flag_binding_exprs(t@));
    r
}

/// Checks a flagged trace: the seeds of its first row (a failure there is
/// reported as row 0, gate `NUM_FLAG_GATES`), then the flagged gates row by
/// row, then the bindings in order.
pub fn check_flag_trace(t: &Vec<FlagRow>, l0: &Felt, l1: &Felt, public: &Vec<Felt>) -> (r: Result<
    (),
    CheckFailure,
>)
    requires
        flag_trace_wf(t@),
        l0.wf(),
        l1.wf(),
        forall|j: int| 0 <= j < public@.len() ==> (#[trigger] public@[j]).wf(),
    ensures
        r.is_ok() == flag_accepts(t@, l0.val(), l1.val(), values(public@)),
        (r == Err::<(), CheckFailure>(CheckFailure::Shape)) == (t@.len() == 0 || public@.len()
            != NUM_FLAG_PUBLIC),
        r matches Err(CheckFailure::Gate { row, index }) ==> {
            ||| row == 0 && index == NUM_FLAG_GATES && (t@[0].l.val() != l0.val() || t@[0].r.val()
                != l1.val())
            ||| {
                &&& t@[0].l.val() == l0.val() && t@[0].r.val() == l1.val()
                &&& row + 1 < t@.len()
                &&& index < NUM_FLAG_GATES
                &&& flag_gate_exprs(t@[row as int], t@[row + 1])[index as int] != 0
                &&& forall|k: int|
                    0 <= k < index ==> #[trigger] flag_gate_exprs(t@[row as int], t@[row + 1])[k] == 0
                &&& forall|i: int|
                    0 <= i < row ==> flag_transition_holds(#[trigger] t@[i], t@[i + 1])
            }
        },
        r matches Err(CheckFailure::Public { index }) ==> {
            &&& flag_gates_hold(t@)
            &&& index < NUM_FLAG_PUBLIC
            &&& flag_binding_exprs(t@)[index as int] != public@[index as int].val()
            &&& forall|j: int| 0 <= j < index ==> flag_binding_exprs(t@)[j] == public@[j].val()
        },
{
    if t.len() == 0 || public.len() != NUM_FLAG_PUBLIC {
        return Err(CheckFailure::Shape);
    }
    if !t[0].l.equals(l0) || !t[0].r.equals(l1) {
        return Err(CheckFailure::Gate { row: 0, index: NUM_FLAG_GATES });
    }
    let mut row: usize = 0;
    while row < t.len() - 1
        invariant
            0 <= row < t@.len(),
            public@.len() == NUM_FLAG_PUBLIC,
            t@[0].l.val() == l0.val() && t@[0].r.val() == l1.val(),
            flag_trace_wf(t@),
            forall|i: int| 0 <= i < row ==> flag_transition_holds(#[trigger] t@[i], t@[i + 1]),
        decreases t@.len() - row,
    {
        let g = flag_gate_values(&t[row], &t[row + 1]);
        let zero = Felt::from_u64(0);
        let mut index: usize = 0;
        while index < NUM_FLAG_GATES
            invariant
                0 <= index <= NUM_FLAG_GATES,
                row + 1 < t@.len(),
                g@.len() == NUM_FLAG_GATES,
                zero.wf(),
                zero.val() == 0,
                forall|k: int|
                    0 <= k < NUM_FLAG_GATES ==> (#[trigger] g@[k]).wf() && g@[k].val()
                        == flag_gate_exprs(t@[row as int], t@[row + 1])[k],
                forall|k: int|
                    0 <= k < index ==> #[trigger] flag_gate_exprs(t@[row as int], t@[row + 1])[k]
                        == 0,
                t@.len() > 0,
                public@.len() == NUM_FLAG_PUBLIC,
                t@[0].l.val() == l0.val() && t@[0].r.val() == l1.val(),
                forall|i: int|
                    0 <= i < row ==> flag_transition_holds(#[trigger] t@[i], t@[i + 1]),
            decreases NUM_FLAG_GATES - index,
        {
            if !g[index].equals(&zero) {
                return Err(CheckFailure::Gate { row, index });
            }
            index = index + 1;
        }
        assert(flag_transition_holds(t@[row as int], t@[row + 1]));
        row = row + 1;
    }
    assert(flag_gates_hold(t@));
    let bound = flag_public_inputs(t);
    let mut j: usize = 0;
    while j < NUM_FLAG_PUBLIC
        invariant
            0 <= j <= NUM_FLAG_PUBLIC,
            public@.len() == NUM_FLAG_PUBLIC,
            bound@ == seq![t@[0].n, t@[t@.len() - 1].r],
            values(bound@) == flag_binding_exprs(t@),
            flag_trace_wf(t@),
            t@.len() > 0,
            t@[0].l.val() == l0.val() && t@[0].r.val() == l1.val(),
            flag_gates_hold(t@),
            forall|i: int| 0 <= i < public@.len() ==> (#[trigger] public@[i]).wf(),
            forall|k: int| 0 <= k < j ==> flag_binding_exprs(t@)[k] == public@[k].val(),
        decreases NUM_FLAG_PUBLIC - j,
    {
        assert(values(bound@)[j as int] == bound@[j as int].val());
        assert(t@[0].wf() && t@[t@.len() - 1].wf());
        if !bound[j].equals(&public[j]) {
            return Err(CheckFailure::Public { index: j });
        }
        j = j + 1;
    }
    assert(values(public@) =~= flag_binding_exprs(t@));
    Ok(())
}

/// Completeness of the flagged encoding: the flagged trace for `n` steps from
/// `(l0, l1)`, with `n` below the height, is accepted against the public values
/// `(n, F(n + 1))`.
pub proof fn lemma_honest_flag_trace_accepted(
    t: Seq<FlagRow>,
    l0: int,
    l1: int,
    n: int,
    rows: int,
)
    requires
        0 <= l0 < modulus(),
        0 <= l1 < modulus(),
        0 <= n < rows,
        honest_flag_trace(t, l0, l1, n, rows),
    ensures
        flag_accepts(t, l0, l1, seq![n, result_value(l0, l1, n)]),
{
    assert forall|i: int| 0 <= i < t.len() - 1 implies flag_transition_holds(
        #[trigger] t[i],
        t[i + 1],
    ) by {
        assert(honest_flag_row(t[i], l0, l1, n, i));
        assert(honest_flag_row(t[i + 1], l0, l1, n, i + 1));
        lemma_honest_flag_rows_step(t[i], t[i + 1], l0, l1, n, i);
        lemma_flag_step_satisfies_gates(t[i], t[i + 1]);
    }
    assert(honest_flag_row(t[0], l0, l1, n, 0));
    assert(honest_flag_row(t[rows - 1], l0, l1, n, rows - 1));
    vstd::arithmetic::div_mod::lemma_small_mod(l0 as nat, modulus() as nat);
    vstd::arithmetic::div_mod::lemma_small_mod(l1 as nat, modulus() as nat);
    assert(seq_value(l0, l1, 1) == l1);
    assert(flag_binding_exprs(t) =~= seq![n, result_value(l0, l1, n)]);
}

/// The flagged trace for `n` steps is rejected against any claimed result
/// other than `F(n + 1)`.
pub proof fn lemma_flag_wrong_result_rejected(
    t: Seq<FlagRow>,
    l0: int,
    l1: int,
    n: int,
    rows: int,
    claimed: int,
)
    requires
        0 <= n < rows,
        honest_flag_trace(t, l0, l1, n, rows),
        claimed != result_value(l0, l1, n),
    ensures
        !flag_accepts(t, l0, l1, seq![n, claimed]),
{
    assert(honest_flag_row(t[rows - 1], l0, l1, n, rows - 1));
    assert(t[rows - 1].r.val() == result_value(l0, l1, n));
    assert(flag_binding_exprs(t)[1] != seq![n, claimed][1]);
}

/// In any flagged trace that satisfies the gates, once a row's flag is 0
/// every later row has flag 0, counter 0 and that row's result.
pub proof fn lemma_flag_padding_frozen(t: Seq<FlagRow>, i: int, j: int)
    requires
        flag_trace_wf(t),
        flag_gates_hold(t),
        0 <= i <= j < t.len(),
        t[i].s.val() == 0,
    ensures
        t[j].s.val() == 0,
        t[j].r.val() == t[i].r.val(),
        i < j ==> t[j].n.val() == 0 && t[j].l.val() == t[i].r.val(),
    decreases j - i,
{
    if i < j {
        lemma_flag_padding_frozen(t, i, j - 1);
        assert(flag_transition_holds(t[j - 1], t[j - 1 + 1]));
        lemma_flag_frozen_step(t[j - 1], t[j]);
    }
}

/// Where the modulus has no zero divisors, the flagged gates force a row with
/// a non-zero counter to be live and followed by one step of the recurrence,
/// whatever flag and witness stand in it.
pub proof fn lemma_flag_live_step_forced(c: FlagRow, x: FlagRow)
    requires
        no_zero_divisors(),
        c.wf(),
        x.wf(),
        c.n.val() != 0,
        flag_transition_holds(c, x),
    ensures
        c.s.val() == 1,
        x.n.val() == c.n.val() - 1,
        x.l.val() == c.r.val(),
        x.r.val() == fadd(c.l.val(), c.r.val()),
{
    let n = c.n.val();
    let s = c.s.val();
    lemma_field_basics(1, s);
    assert(flag_gate_exprs(c, x)[8] == 0);
    if fsub(1, s) != 0 {
        assert(fmul(fsub(1, s), n) != 0);
    }
    assert(s == 1);
    lemma_field_basics(1, 1);
    let d = fsub(fsub(n, x.n.val()), 1);
    lemma_field_basics(n, x.n.val());
    lemma_field_basics(fsub(n, x.n.val()), 1);
    lemma_field_basics(d, 0);
    assert(flag_gate_exprs(c, x)[2] == 0);
    assert(fsub(n, x.n.val()) == 1);
    let e = fsub(fadd(c.l.val(), c.r.val()), x.r.val());
    lemma_field_basics(c.l.val(), c.r.val());
    lemma_field_basics(fadd(c.l.val(), c.r.val()), x.r.val());
    lemma_field_basics(e, 0);
    assert(flag_gate_exprs(c, x)[4] == 0);
    lemma_field_basics(x.l.val(), c.r.val());
    assert(flag_gate_exprs(c, x)[6] == 0);
}

/// The flagged gates force a row with counter zero to have flag 0, whatever
/// witness stands in it.
pub proof fn lemma_flag_zero_counter_frozen(c: FlagRow, x: FlagRow)
    requires
        c.wf(),
        x.wf(),
        c.n.val() == 0,
        flag_transition_holds(c, x),
    ensures
        c.s.val() == 0,
{
    lemma_field_basics(c.n_inv.val(), 0);
    lemma_field_basics(1, 0);
    lemma_field_basics(c.s.val(), 1);
    assert(flag_gate_exprs(c, x)[7] == 0);
}

proof fn lemma_flag_forced_rows(t: Seq<FlagRow>, l0: int, l1: int, n: int, i: int)
    requires
        no_zero_divisors(),
        flag_trace_wf(t),
        flag_gates_hold(t),
        0 <= n,
        0 <= i < t.len(),
        t[0].n.val() == n,
        t[0].l.val() == l0,
        t[0].r.val() == l1,
    ensures
        t[i].n.val() == if i <= n {
            n - i
        } else {
            0
        },
        t[i].l.val() == if i <= n {
            seq_value(l0, l1, i as nat) % modulus()
        } else {
            result_value(l0, l1, n)
        },
        t[i].r.val() == if i <= n {
            seq_value(l0, l1, (i + 1) as nat) % modulus()
        } else {
            result_value(l0, l1, n)
        },
        i > n ==> t[i].s.val() == 0,
    decreases i,
{
    if i == 0 {
        assert(t[0].wf());
        vstd::arithmetic::div_mod::lemma_small_mod(l0 as nat, modulus() as nat);
        vstd::arithmetic::div_mod::lemma_small_mod(l1 as nat, modulus() as nat);
        assert(seq_value(l0, l1, 1) == l1);
    } else {
        let k = i - 1;
        lemma_flag_forced_rows(t, l0, l1, n, k);
        assert(t[k].wf() && t[i].wf());
        assert(flag_transition_holds(t[k], t[k + 1]));
        if k < n {
            lemma_flag_live_step_forced(t[k], t[i]);
            lemma_seq_step(l0, l1, k as nat);
            assert((k + 1 + 1) as nat == (k as nat) + 2);
        } else {
            if k == n {
                lemma_flag_zero_counter_frozen(t[k], t[i]);
            }
            lemma_flag_frozen_step(t[k], t[i]);
        }
    }
}

/// Soundness of the flagged encoding where the modulus has no zero divisors:
/// any flagged trace of field elements accepted from the seeds `(l0, l1)`
/// against `(n, result)`, with `n` below the trace height, has
/// `result = F(n + 1)`, whatever flags and witnesses it holds: the flag cannot
/// drop before the counter reaches zero, nor stay up after it.
pub proof fn lemma_flag_accepted_result_forced(
    t: Seq<FlagRow>,
    l0: int,
    l1: int,
    n: int,
    result: int,
)
    requires
        no_zero_divisors(),
        flag_trace_wf(t),
        0 <= n < t.len(),
        flag_accepts(t, l0, l1, seq![n, result]),
    ensures
        result == result_value(l0, l1, n),
{
    assert(flag_binding_exprs(t)[0] == n);
    assert(flag_binding_exprs(t)[1] == result);
    lemma_flag_forced_rows(t, l0, l1, n, t.len() - 1);
}

} // verus!
