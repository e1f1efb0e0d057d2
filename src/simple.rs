//! The recurrence without a loop counter: one row per step and no padding,
//! so the trace height is the number of steps. Row `i` holds `(a, b, c)` with
//! the identity `a + b - c = 0`; equality constraints hand `b` and `c` of a row on to
//! `a` and `b` of the next. The public values are the seeds and the last `c`.
use crate::checker::{values, CheckFailure};
use crate::field::{fadd, fsub, lemma_field_basics, modulus, Felt};
use crate::trace::{lemma_seq_step, result_value, seq_value, ConfigError, MAX_ROWS};
use vstd::prelude::*;

verus! {

/// How many public values a trace without counter is bound to.
pub const NUM_SIMPLE_PUBLIC: usize = 3;

/// One row of a trace without counter.
#[derive(Clone, Copy, Debug)]
pub struct SimpleRow {
    pub a: Felt,
    pub b: Felt,
    pub c: Felt,
}

impl SimpleRow {
    pub open spec fn wf(self) -> bool {
        &&& self.a.wf()
        &&& self.b.wf()
        &&& self.c.wf()
    }
}

/// The row's gate `a + b - c`.
pub open spec fn simple_gate_expr(row: SimpleRow) -> int {
    fsub(fadd(row.a.val(), row.b.val()), row.c.val())
}

/// The copy constraints between a row and the next: `a' = b`, `b' = c`.
pub open spec fn copies_hold(c: SimpleRow, x: SimpleRow) -> bool {
    x.a.val() == c.b.val() && x.b.val() == c.c.val()
}

/// Row `i` of the trace for `n` steps from `(l0, l1)`:
/// `(F(i), F(i + 1), F(i + 2))`.
pub open spec fn honest_simple_row(row: SimpleRow, l0: int, l1: int, i: int) -> bool {
    &&& row.wf()
    &&& row.a.val() == seq_value(l0, l1, i as nat) % modulus()
    &&& row.b.val() == seq_value(l0, l1, (i + 1) as nat) % modulus()
    &&& row.c.val() == seq_value(l0, l1, (i + 2) as nat) % modulus()
}

/// The whole trace for `n` steps from `(l0, l1)`: `n` rows.
pub open spec fn honest_simple_trace(t: Seq<SimpleRow>, l0: int, l1: int, n: int) -> bool {
    &&& t.len() == n
    &&& forall|i: int| 0 <= i < n ==> honest_simple_row(#[trigger] t[i], l0, l1, i)
}

/// Every cell of the trace is a field element.
pub open spec fn simple_trace_wf(t: Seq<SimpleRow>) -> bool {
    forall|i: int| 0 <= i < t.len() ==> (#[trigger] t[i]).wf()
}

/// The bound cells: the first row's `a` and `b` and the last row's `c`.
pub open spec fn simple_binding_exprs(t: Seq<SimpleRow>) -> Seq<int> {
    seq![t[0].a.val(), t[0].b.val(), t[t.len() - 1].c.val()]
}

/// The trace satisfies every gate and copy constraint and is bound to `p`.
pub open spec fn simple_accepts(t: Seq<SimpleRow>, p: Seq<int>) -> bool {
    &&& t.len() > 0
    &&& p.len() == NUM_SIMPLE_PUBLIC
    &&& forall|i: int| 0 <= i < t.len() ==> simple_gate_expr(#[trigger] t[i]) == 0
    &&& forall|i: int| 0 <= i < t.len() - 1 ==> copies_hold(#[trigger] t[i], t[i + 1])
    &&& simple_binding_exprs(t) == p
}

/// The first row: the seeds and their sum.
pub fn simple_setup(l0: &Felt, l1: &Felt) -> (r: SimpleRow)
    requires
        l0.wf(),
        l1.wf(),
    ensures
        r.wf(),
        r.a.val() == l0.val(),
        r.b.val() == l1.val(),
        r.c.val() == fadd(l0.val(), l1.val()),
{
    SimpleRow { a: *l0, b: *l1, c: l0.add(l1) }
}

/// The row after `prev`: `b` and `c` copied into `a` and `b`, and their sum.
pub fn simple_next_row(prev: &SimpleRow) -> (r: SimpleRow)
    requires
        prev.wf(),
    ensures
        r.wf(),
        copies_hold(*prev, r),
        r.c.val() == fadd(prev.b.val(), prev.c.val()),
{
    SimpleRow { a: prev.b, b: prev.c, c: prev.b.add(&prev.c) }
}

/// Builds the trace for `n` steps from `(l0, l1)`: one row per step. At
/// least one step is needed, and the steps must fit below `MAX_ROWS`.
pub fn build_simple_trace(l0: &Felt, l1: &Felt, n: u64) -> (r: Result<Vec<SimpleRow>, ConfigError>)
    requires
        l0.wf(),
        l1.wf(),
    ensures
        r.is_err() == (n == 0 || n >= MAX_ROWS),
        r matches Err(e) ==> e == (if n == 0 {
            ConfigError::NoSteps
        } else {
            ConfigError::CounterOutOfRange
        }),
        r matches Ok(t) ==> honest_simple_trace(t@, l0.val(), l1.val(), n as int),
{
    if n == 0 {
        return Err(ConfigError::NoSteps);
    }
    if n >= MAX_ROWS as u64 {
        return Err(ConfigError::CounterOutOfRange);
    }
    let first = simple_setup(l0, l1);
    proof {
        vstd::arithmetic::div_mod::lemma_small_mod(l0.val() as nat, modulus() as nat);
        vstd::arithmetic::div_mod::lemma_small_mod(l1.val() as nat, modulus() as nat);
        assert(seq_value(l0.val(), l1.val(), 1) == l1.val());
        lemma_seq_step(l0.val(), l1.val(), 0);
    }
    let mut t: Vec<SimpleRow> = Vec::new();
    t.push(first);
    let mut last = first;
    let mut i: u64 = 1;
    while i < n
        invariant
            1 <= i <= n,
            t@.len() == i,
            last == t@[i - 1],
            forall|j: int| 0 <= j < i ==> honest_simple_row(#[trigger] t@[j], l0.val(), l1.val(), j),
        decreases n - i,
    {
        let next = simple_next_row(&last);
        proof {
            lemma_seq_step(l0.val(), l1.val(), i as nat);
            assert((i + 2) as nat == (i as nat) + 2);
        }
        t.push(next);
        last = next;
        i = i + 1;
    }
    Ok(t)
}

/// Checks a trace without counter, and names the first check that fails:
/// row by row its gate (index 0) and its copies into the next row (index 1
/// for `a' = b`, 2 for `b' = c`), then the bindings in order.
pub fn check_simple_trace(t: &Vec<SimpleRow>, public: &Vec<Felt>) -> (r: Result<(), CheckFailure>)
    requires
        simple_trace_wf(t@),
        forall|j: int| 0 <= j < public@.len() ==> (#[trigger] public@[j]).wf(),
    ensures
        r.is_ok() == simple_accepts(t@, values(public@)),
        (r == Err::<(), CheckFailure>(CheckFailure::Shape)) == (t@.len() == 0 || public@.len()
            != NUM_SIMPLE_PUBLIC),
        r matches Err(CheckFailure::Gate { row, index }) ==> {
            &&& row < t@.len()
            &&& index < 3
            &&& index == 0 ==> simple_gate_expr(t@[row as int]) != 0
            &&& index == 1 ==> row + 1 < t@.len() && t@[row + 1].a.val() != t@[row as int].b.val()
            &&& index == 2 ==> row + 1 < t@.len() && t@[row + 1].b.val() != t@[row as int].c.val()
            &&& index > 0 ==> simple_gate_expr(t@[row as int]) == 0
            &&& index > 1 ==> t@[row + 1].a.val() == t@[row as int].b.val()
            &&& forall|i: int| 0 <= i < row ==> simple_gate_expr(#[trigger] t@[i]) == 0
            &&& forall|i: int| 0 <= i < row ==> copies_hold(#[trigger] t@[i], t@[i + 1])
        },
        r matches Err(CheckFailure::Public { index }) ==> {
            &&& index < NUM_SIMPLE_PUBLIC
            &&& simple_binding_exprs(t@)[index as int] != public@[index as int].val()
            &&& forall|j: int| 0 <= j < index ==> simple_binding_exprs(t@)[j] == public@[j].val()
            &&& forall|i: int| 0 <= i < t@.len() ==> simple_gate_expr(#[trigger] t@[i]) == 0
            &&& forall|i: int| 0 <= i < t@.len() - 1 ==> copies_hold(#[trigger] t@[i], t@[i + 1])
        },
{
    if t.len() == 0 || public.len() != NUM_SIMPLE_PUBLIC {
        return Err(CheckFailure::Shape);
    }
    let zero = Felt::from_u64(0);
    let mut row: usize = 0;
    while row < t.len()
        invariant
            0 <= row <= t@.len(),
            t@.len() > 0,
            public@.len() == NUM_SIMPLE_PUBLIC,
            simple_trace_wf(t@),
            zero.wf(),
            zero.val() == 0,
            forall|i: int| 0 <= i < row ==> simple_gate_expr(#[trigger] t@[i]) == 0,
            forall|i: int| 0 <= i < row && i < t@.len() - 1 ==> copies_hold(#[trigger] t@[i], t@[i + 1]),
        decreases t@.len() - row,
    {
        let cur = &t[row];
        let g = cur.a.add(&cur.b).sub(&cur.c);
        if !g.equals(&zero) {
            return Err(CheckFailure::Gate { row, index: 0 });
        }
        if row + 1 < t.len() {
            let next = &t[row + 1];
            if !next.a.equals(&cur.b) {
                return Err(CheckFailure::Gate { row, index: 1 });
            }
            if !next.b.equals(&cur.c) {
                return Err(CheckFailure::Gate { row, index: 2 });
            }
        }
        row = row + 1;
    }
    let last = t.len() - 1;
    let bound = vec![t[0].a, t[0].b, t[last].c];
    assert(values(bound@) =~= simple_binding_exprs(t@));
    let mut j: usize = 0;
    while j < NUM_SIMPLE_PUBLIC
        invariant
            0 <= j <= NUM_SIMPLE_PUBLIC,
            public@.len() == NUM_SIMPLE_PUBLIC,
            bound@ == seq![t@[0].a, t@[0].b, t@[t@.len() - 1].c],
            values(bound@) == simple_binding_exprs(t@),
            simple_trace_wf(t@),
            t@.len() > 0,
            forall|i: int| 0 <= i < public@.len() ==> (#[trigger] public@[i]).wf(),
            forall|k: int| 0 <= k < j ==> simple_binding_exprs(t@)[k] == public@[k].val(),
            forall|i: int| 0 <= i < t@.len() ==> simple_gate_expr(#[trigger] t@[i]) == 0,
            forall|i: int| 0 <= i < t@.len() - 1 ==> copies_hold(#[trigger] t@[i], t@[i + 1]),
        decreases NUM_SIMPLE_PUBLIC - j,
    {
        assert(values(bound@)[j as int] == bound@[j as int].val());
        assert(t@[0].wf() && t@[t@.len() - 1].wf());
        if !bound[j].equals(&public[j]) {
            return Err(CheckFailure::Public { index: j });
        }
        j = j + 1;
    }
    assert(values(public@) =~= simple_binding_exprs(t@));
    Ok(())
}

/// Completeness: the trace for `n >= 1` steps from `(l0, l1)` is accepted
/// against `(l0, l1, F(n + 1))`.
pub proof fn lemma_honest_simple_trace_accepted(t: Seq<SimpleRow>, l0: int, l1: int, n: int)
    requires
        0 <= l0 < modulus(),
        0 <= l1 < modulus(),
        1 <= n,
        honest_simple_trace(t, l0, l1, n),
    ensures
        simple_accepts(t, seq![l0, l1, result_value(l0, l1, n)]),
{
    assert forall|i: int| 0 <= i < t.len() implies simple_gate_expr(#[trigger] t[i]) == 0 by {
        assert(honest_simple_row(t[i], l0, l1, i));
        lemma_seq_step(l0, l1, i as nat);
        assert((i + 2) as nat == (i as nat) + 2);
        lemma_field_basics(t[i].a.val(), t[i].b.val());
        lemma_field_basics(fadd(t[i].a.val(), t[i].b.val()), t[i].c.val());
    }
    assert forall|i: int| 0 <= i < t.len() - 1 implies copies_hold(#[trigger] t[i], t[i + 1]) by {
        assert(honest_simple_row(t[i], l0, l1, i));
        assert(honest_simple_row(t[i + 1], l0, l1, i + 1));
        assert((i + 1 + 1) as nat == (i + 2) as nat);
    }
    assert(honest_simple_row(t[0], l0, l1, 0));
    assert(honest_simple_row(t[n - 1], l0, l1, n - 1));
    assert((n - 1 + 2) as nat == (n + 1) as nat);
    vstd::arithmetic::div_mod::lemma_small_mod(l0 as nat, modulus() as nat);
    vstd::arithmetic::div_mod::lemma_small_mod(l1 as nat, modulus() as nat);
    assert(seq_value(l0, l1, 1) == l1);
    assert(simple_binding_exprs(t) =~= seq![l0, l1, result_value(l0, l1, n)]);
}

proof fn lemma_simple_rows_forced(t: Seq<SimpleRow>, l0: int, l1: int, i: int)
    requires
        simple_trace_wf(t),
        t.len() > 0,
        forall|k: int| 0 <= k < t.len() ==> simple_gate_expr(#[trigger] t[k]) == 0,
        forall|k: int| 0 <= k < t.len() - 1 ==> copies_hold(#[trigger] t[k], t[k + 1]),
        t[0].a.val() == l0,
        t[0].b.val() == l1,
        0 <= i < t.len(),
    ensures
        t[i].a.val() == seq_value(l0, l1, i as nat) % modulus(),
        t[i].b.val() == seq_value(l0, l1, (i + 1) as nat) % modulus(),
        t[i].c.val() == seq_value(l0, l1, (i + 2) as nat) % modulus(),
    decreases i,
{
    assert(t[i].wf());
    assert(simple_gate_expr(t[i]) == 0);
    lemma_field_basics(t[i].a.val(), t[i].b.val());
    lemma_field_basics(fadd(t[i].a.val(), t[i].b.val()), t[i].c.val());
    lemma_seq_step(l0, l1, i as nat);
    assert((i + 2) as nat == (i as nat) + 2);
    if i == 0 {
        assert(t[0].wf());
        vstd::arithmetic::div_mod::lemma_small_mod(l0 as nat, modulus() as nat);
        vstd::arithmetic::div_mod::lemma_small_mod(l1 as nat, modulus() as nat);
        assert(seq_value(l0, l1, 1) == l1);
    } else {
        lemma_simple_rows_forced(t, l0, l1, i - 1);
        assert(copies_hold(t[i - 1], t[i - 1 + 1]));
        assert((i - 1 + 2) as nat == (i + 1) as nat);
    }
}

/// Soundness: any trace without counter of height `n` that is accepted against
/// `(l0, l1, result)` has `result = F(n + 1)`; a wrong result is always
/// rejected, whatever the other cells hold.
pub proof fn lemma_simple_result_forced(t: Seq<SimpleRow>, l0: int, l1: int, result: int)
    requires
        simple_trace_wf(t),
        simple_accepts(t, seq![l0, l1, result]),
    ensures
        result == result_value(l0, l1, t.len() as int),
{
    assert(simple_binding_exprs(t)[0] == l0);
    assert(simple_binding_exprs(t)[1] == l1);
    assert(simple_binding_exprs(t)[2] == result);
    lemma_simple_rows_forced(t, l0, l1, t.len() - 1);
    assert((t.len() - 1 + 2) as nat == (t.len() + 1) as nat);
}

} // verus!
