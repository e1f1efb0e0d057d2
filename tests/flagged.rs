use fib_circuit::checker::CheckFailure;
use fib_circuit::field::Felt;
use fib_circuit::flagged::{
    build_flag_trace, check_flag_trace, computational_row, flag_first_row, flag_gate_values,
    flag_public_inputs, padding_row, FlagRow, NUM_FLAG_GATES,
};
use fib_circuit::trace::{expected_result, ConfigError, MAX_ROWS};

fn f(x: u64) -> Felt {
    Felt::from_u64(x)
}

fn same(a: &Felt, b: &Felt) -> bool {
    a.to_bytes() == b.to_bytes()
}

fn flag_trace(n: u64, rows: usize) -> Vec<FlagRow> {
    build_flag_trace(&f(0), &f(1), n, rows).unwrap()
}

#[test]
fn flagged_n5_accepts_8_rejects_18() {
    let t = flag_trace(5, MAX_ROWS);
    assert_eq!(check_flag_trace(&t, &f(0), &f(1), &vec![f(5), f(8)]), Ok(()));
    assert_eq!(
        check_flag_trace(&t, &f(0), &f(1), &vec![f(5), f(18)]),
        Err(CheckFailure::Public { index: 1 })
    );
}

#[test]
fn flagged_n10_gives_89() {
    let t = flag_trace(10, 11);
    assert!(same(&flag_public_inputs(&t)[1], &f(89)));
    assert_eq!(check_flag_trace(&t, &f(0), &f(1), &vec![f(10), f(89)]), Ok(()));
}

#[test]
fn flagged_boundaries_and_reference() {
    let rows: usize = 30;
    for n in 0..30u64 {
        let t = flag_trace(n, rows);
        let expected = expected_result(&f(0), &f(1), n);
        assert_eq!(check_flag_trace(&t, &f(0), &f(1), &vec![f(n), expected]), Ok(()));
    }
    assert_eq!(
        build_flag_trace(&f(0), &f(1), 30, 30).unwrap_err(),
        ConfigError::CounterOutOfRange
    );
}

#[test]
fn flagged_flag_drops_once() {
    let t = flag_trace(4, 9);
    for i in 0..4 {
        assert!(same(&t[i].s, &f(1)));
    }
    for i in 4..9 {
        assert!(same(&t[i].s, &f(0)));
        assert!(same(&t[i].n, &f(0)));
        assert!(same(&t[i].r, &f(5)));
    }
}

#[test]
fn flagged_tampering_is_rejected() {
    let mut t = flag_trace(4, 9);
    t[6].s = f(1);
    assert_eq!(
        check_flag_trace(&t, &f(0), &f(1), &vec![f(4), f(5)]),
        Err(CheckFailure::Gate { row: 5, index: 1 })
    );
    let mut t = flag_trace(4, 9);
    t[7].r = f(6);
    t[7].l = f(5);
    assert_eq!(
        check_flag_trace(&t, &f(0), &f(1), &vec![f(4), f(5)]),
        Err(CheckFailure::Gate { row: 6, index: 5 })
    );
    let mut t = flag_trace(4, 9);
    t[1].s = f(2);
    assert_eq!(
        check_flag_trace(&t, &f(0), &f(1), &vec![f(4), f(5)]),
        Err(CheckFailure::Gate { row: 1, index: 0 })
    );
    let t = flag_trace(4, 9);
    assert_eq!(
        check_flag_trace(&t, &f(1), &f(1), &vec![f(4), f(5)]),
        Err(CheckFailure::Gate { row: 0, index: NUM_FLAG_GATES })
    );
    assert_eq!(
        check_flag_trace(&t, &f(0), &f(1), &vec![f(4)]),
        Err(CheckFailure::Shape)
    );
}

#[test]
fn flagged_rows() {
    let r0 = flag_first_row(&f(0), &f(1), 2);
    assert!(same(&r0.s, &f(1)));
    let r1 = computational_row(&r0, false);
    assert!(same(&r1.n, &f(1)) && same(&r1.l, &f(1)) && same(&r1.r, &f(1)) && same(&r1.s, &f(1)));
    let r2 = computational_row(&r1, true);
    assert!(same(&r2.n, &f(0)) && same(&r2.r, &f(2)) && same(&r2.s, &f(0)));
    let r3 = padding_row(&r2);
    assert!(same(&r3.l, &f(2)) && same(&r3.r, &f(2)) && same(&r3.s, &f(0)));
    for (a, b) in [(&r0, &r1), (&r1, &r2), (&r2, &r3)] {
        let g = flag_gate_values(a, b);
        assert_eq!(g.len(), NUM_FLAG_GATES);
        assert!(g.iter().all(|v| same(v, &f(0))));
    }
    assert!(same(&flag_first_row(&f(0), &f(1), 0).s, &f(0)));
}

#[test]
fn flagged_early_drop_is_rejected() {
    // three steps asked for, the flag dropped after one, then padding
    let r0 = flag_first_row(&f(0), &f(1), 3);
    let r1 = computational_row(&r0, true);
    let r2 = padding_row(&r1);
    let r3 = padding_row(&r2);
    let t = vec![r0, r1, r2, r3];
    assert_eq!(
        check_flag_trace(&t, &f(0), &f(1), &vec![f(3), f(1)]),
        Err(CheckFailure::Gate { row: 1, index: 8 })
    );
    let honest = flag_trace(3, 4);
    assert_eq!(check_flag_trace(&honest, &f(0), &f(1), &vec![f(3), f(3)]), Ok(()));
}

#[test]
fn flagged_late_drop_is_rejected() {
    // the flag stays up on the row where the counter is already zero
    let mut t = flag_trace(2, 6);
    t[2].s = f(1);
    assert_eq!(
        check_flag_trace(&t, &f(0), &f(1), &vec![f(2), f(2)]),
        Err(CheckFailure::Gate { row: 2, index: 2 })
    );
}

#[test]
fn flagged_wrong_witness_is_rejected() {
    let mut t = flag_trace(4, 9);
    t[1].n_inv = f(5);
    assert_eq!(
        check_flag_trace(&t, &f(0), &f(1), &vec![f(4), f(5)]),
        Err(CheckFailure::Gate { row: 1, index: 7 })
    );
}
