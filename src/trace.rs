//! The trace builder: the rows of a computation of `n` steps of the
//! recurrence from the seeds `(l0, l1)`, padded with frozen rows up to a fixed
//! height.
use crate::field::{fadd, inverse_or_zero, lemma_field_basics, modulus, Felt};
use crate::gates::{first_row, next_row, step_relation, Row};
use vstd::prelude::*;

verus! {

/// The trace height that the circuit is laid out for.
pub const MAX_ROWS: usize = 370;

/// The sequence seeded with `(l0, l1)`: `F(0) = l0`, `F(1) = l1`,
/// `F(k) = F(k - 2) + F(k - 1)`.
pub open spec fn seq_value(l0: int, l1: int, k: nat) -> int
    decreases k,
{
    if k == 0 {
        l0
    } else if k == 1 {
        l1
    } else {
        seq_value(l0, l1, (k - 2) as nat) + seq_value(l0, l1, (k - 1) as nat)
    }
}

/// The Fibonacci numbers `0, 1, 1, 2, 3, 5, 8, ...`.
pub open spec fn fib(k: nat) -> int {
    seq_value(0, 1, k)
}

/// The result that `n` steps from `(l0, l1)` leave in the `r` column: `F(n + 1)`
/// in the field. From the seeds `(0, 1)` and `n = 5` it is 8.
pub open spec fn result_value(l0: int, l1: int, n: int) -> int {
    seq_value(l0, l1, (n + 1) as nat) % modulus()
}

/// Row `i` of the trace for `n` steps from `(l0, l1)`: up to row `n` the
/// counter is `n - i` and `(l, r) = (F(i), F(i + 1))`; after it the counter
/// is 0 and `l = r = F(n + 1)`. The zero-test witness is the inverse of the
/// counter, or zero for zero.
pub open spec fn honest_row(row: Row, l0: int, l1: int, n: int, i: int) -> bool {
    &&& row.wf()
    &&& row.inverse_assigned()
    &&& row.n.val() == if i <= n {
        n - i
    } else {
        0
    }
    &&& row.l.val() == if i <= n {
        seq_value(l0, l1, i as nat) % modulus()
    } else {
        result_value(l0, l1, n)
    }
    &&& row.r.val() == if i <= n {
        seq_value(l0, l1, (i + 1) as nat) % modulus()
    } else {
        result_value(l0, l1, n)
    }
}

/// The whole trace of height `rows` for `n` steps from `(l0, l1)`.
pub open spec fn honest_trace(t: Seq<Row>, l0: int, l1: int, n: int, rows: int) -> bool {
    &&& t.len() == rows
    &&& forall|i: int| 0 <= i < rows ==> honest_row(#[trigger] t[i], l0, l1, n, i)
}

/// The configuration errors that the builder reports before it builds anything.
#[derive(Clone, Copy, Debug, PartialEq, Eq, Structural)]
pub enum ConfigError {
    /// The counter is not below the trace height: its steps do not fit.
    CounterOutOfRange,
    /// A layout with one row per step was asked for no step.
    NoSteps,
}

/// Adding two consecutive values of the sequence in the field gives the next.
pub proof fn lemma_seq_step(l0: int, l1: int, i: nat)
    ensures
        fadd(seq_value(l0, l1, i) % modulus(), seq_value(l0, l1, i + 1) % modulus())
            == seq_value(l0, l1, i + 2) % modulus(),
{
    vstd::arithmetic::div_mod::lemma_add_mod_noop(
        seq_value(l0, l1, i),
        seq_value(l0, l1, i + 1),
        modulus(),
    );
    assert(seq_value(l0, l1, i + 2) == seq_value(l0, l1, i) + seq_value(l0, l1, i + 1));
}

/// Consecutive rows of the trace are one step of the recurrence apart.
pub proof fn lemma_honest_rows_step(c: Row, x: Row, l0: int, l1: int, n: int, i: int)
    requires
        0 <= i,
        0 <= n,
        honest_row(c, l0, l1, n, i),
        honest_row(x, l0, l1, n, i + 1),
    ensures
        step_relation(c, x),
{
    if i < n {
        lemma_seq_step(l0, l1, i as nat);
        assert((i + 1 + 1) as nat == (i as nat) + 2);
    }
}

/// A row one step after a row of the trace is the trace's next row.
proof fn lemma_step_keeps_honest(c: Row, x: Row, l0: int, l1: int, n: int, i: int)
    requires
        0 <= i,
        0 <= n,
        honest_row(c, l0, l1, n, i),
        x.wf(),
        x.inverse_assigned(),
        step_relation(c, x),
    ensures
        honest_row(x, l0, l1, n, i + 1),
{
    if i < n {
        lemma_seq_step(l0, l1, i as nat);
        assert((i + 1 + 1) as nat == (i as nat) + 2);
    }
}

/// Builds the trace of height `rows` for `n` steps from the seeds `(l0, l1)`.
/// A counter that does not fit below the height is refused before any row is
/// built.
pub fn build_trace(l0: &Felt, l1: &Felt, n: u64, rows: usize) -> (r: Result<Vec<Row>, ConfigError>)
    requires
        l0.wf(),
        l1.wf(),
    ensures
        r.is_err() == (n as int >= rows as int),
        r matches Err(e) ==> e == ConfigError::CounterOutOfRange,
        r matches Ok(t) ==> honest_trace(t@, l0.val(), l1.val(), n as int, rows as int),
{
    if n as u128 >= rows as u128 {
        return Err(ConfigError::CounterOutOfRange);
    }
    let first = first_row(l0, l1, n);
    proof {
        lemma_field_basics(l0.val(), 0);
        vstd::arithmetic::div_mod::lemma_small_mod(l0.val() as nat, modulus() as nat);
        vstd::arithmetic::div_mod::lemma_small_mod(l1.val() as nat, modulus() as nat);
        assert(seq_value(l0.val(), l1.val(), 1) == l1.val());
    }
    let mut t: Vec<Row> = Vec::new();
    t.push(first);
    let mut last = first;
    let mut i: usize = 1;
    while i < rows
        invariant
            1 <= i <= rows,
            (n as int) < rows,
            t@.len() == i,
            last == t@[i - 1],
            forall|j: int| 0 <= j < i ==> honest_row(#[trigger] t@[j], l0.val(), l1.val(), n as int, j),
        decreases rows - i,
    {
        let next = next_row(&last);
        proof {
            lemma_step_keeps_honest(last, next, l0.val(), l1.val(), n as int, (i - 1) as int);
        }
        t.push(next);
        last = next;
        i = i + 1;
    }
    Ok(t)
}

/// The result computed directly, apart from any trace: `F(n + 1)` for the
/// sequence seeded with `(l0, l1)`, in the field.
pub fn expected_result(l0: &Felt, l1: &Felt, n: u64) -> (r: Felt)
    requires
        l0.wf(),
        l1.wf(),
    ensures
        r.wf(),
        r.val() == result_value(l0.val(), l1.val(), n as int),
{
    proof {
        vstd::arithmetic::div_mod::lemma_small_mod(l0.val() as nat, modulus() as nat);
        vstd::arithmetic::div_mod::lemma_small_mod(l1.val() as nat, modulus() as nat);
        assert(seq_value(l0.val(), l1.val(), 1) == l1.val());
    }
    let mut a = *l0;
    let mut b = *l1;
    let mut k: u64 = 0;
    while k < n
        invariant
            k <= n,
            a.wf(),
            b.wf(),
            a.val() == seq_value(l0.val(), l1.val(), k as nat) % modulus(),
            b.val() == seq_value(l0.val(), l1.val(), (k + 1) as nat) % modulus(),
        decreases n - k,
    {
        proof {
            lemma_seq_step(l0.val(), l1.val(), k as nat);
            assert((k + 1 + 1) as nat == (k as nat) + 2);
        }
        let c = a.add(&b);
        a = b;
        b = c;
        k = k + 1;
    }
    b
}

} // verus!
