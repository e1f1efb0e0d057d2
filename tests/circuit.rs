use fib_circuit::checker::{check_trace, public_inputs, CheckFailure};
use fib_circuit::field::Felt;
use fib_circuit::gadget::{is_zero_predicate, zero_gate, zero_gate_holds};
use fib_circuit::gates::{first_row, gate_values, next_row, Row, NUM_GATES};
use fib_circuit::trace::{build_trace, expected_result, ConfigError, MAX_ROWS};

fn f(x: u64) -> Felt {
    Felt::from_u64(x)
}

fn same(a: &Felt, b: &Felt) -> bool {
    a.to_bytes() == b.to_bytes()
}

fn fib_trace(n: u64, rows: usize) -> Vec<Row> {
    build_trace(&f(0), &f(1), n, rows).unwrap()
}

fn publics(l0: u64, l1: u64, n: u64, result: u64) -> Vec<Felt> {
    vec![f(l0), f(l1), f(n), f(result)]
}

#[test]
fn n5_accepts_result_8_and_rejects_18() {
    let t = fib_trace(5, MAX_ROWS);
    assert_eq!(t.len(), MAX_ROWS);
    assert_eq!(check_trace(&t, &publics(0, 1, 5, 8)), Ok(()));
    assert_eq!(
        check_trace(&t, &publics(0, 1, 5, 18)),
        Err(CheckFailure::Public { index: 3 })
    );
    assert!(same(&expected_result(&f(0), &f(1), 5), &f(8)));
}

#[test]
fn n10_gives_89() {
    for rows in [11usize, 12, MAX_ROWS] {
        let t = fib_trace(10, rows);
        let p = public_inputs(&t);
        assert!(same(&p[3], &f(89)));
        assert_eq!(check_trace(&t, &publics(0, 1, 10, 89)), Ok(()));
    }
    assert!(same(&expected_result(&f(0), &f(1), 10), &f(89)));
}

#[test]
fn boundary_counters_are_accepted() {
    let rows: usize = 20;
    let t = fib_trace(1, rows);
    assert_eq!(check_trace(&t, &publics(0, 1, 1, 1)), Ok(()));
    let t = fib_trace(19, rows);
    // fib(20) = 6765
    assert_eq!(check_trace(&t, &publics(0, 1, 19, 6765)), Ok(()));
    let t = fib_trace((MAX_ROWS - 1) as u64, MAX_ROWS);
    let r = expected_result(&f(0), &f(1), (MAX_ROWS - 1) as u64);
    let p = vec![f(0), f(1), f((MAX_ROWS - 1) as u64), r];
    assert_eq!(check_trace(&t, &p), Ok(()));
}

#[test]
fn counter_must_fit_below_height() {
    assert_eq!(build_trace(&f(0), &f(1), 20, 20).unwrap_err(), ConfigError::CounterOutOfRange);
    assert_eq!(build_trace(&f(0), &f(1), 0, 0).unwrap_err(), ConfigError::CounterOutOfRange);
    assert!(build_trace(&f(0), &f(1), 0, 1).is_ok());
}

#[test]
fn every_counter_matches_reference() {
    let rows: usize = 40;
    for n in 0..40u64 {
        let t = fib_trace(n, rows);
        let expected = expected_result(&f(0), &f(1), n);
        let p = public_inputs(&t);
        assert!(same(&p[3], &expected));
        assert_eq!(check_trace(&t, &vec![f(0), f(1), f(n), expected]), Ok(()));
    }
}

#[test]
fn other_seeds() {
    // 2, 3, 5, 8, 13, 21: four steps from (2, 3) leave 21
    let t = build_trace(&f(2), &f(3), 4, 8).unwrap();
    assert_eq!(check_trace(&t, &publics(2, 3, 4, 21)), Ok(()));
    assert_eq!(
        check_trace(&t, &publics(1, 3, 4, 21)),
        Err(CheckFailure::Public { index: 0 })
    );
    assert_eq!(
        check_trace(&t, &publics(2, 3, 5, 21)),
        Err(CheckFailure::Public { index: 2 })
    );
}

#[test]
fn padding_rows_are_frozen() {
    let t = fib_trace(5, 12);
    for i in 5..12 {
        assert!(same(&t[i].n, &f(0)));
        assert!(same(&t[i].r, &f(8)));
    }
    for i in 6..12 {
        assert!(same(&t[i].l, &f(8)));
    }
}

#[test]
fn drifting_padding_is_rejected() {
    let mut t = fib_trace(5, 12);
    t[9].r = f(9);
    t[9].l = f(8);
    assert_eq!(
        check_trace(&t, &publics(0, 1, 5, 8)),
        Err(CheckFailure::Gate { row: 8, index: 2 })
    );
    let mut t = fib_trace(5, 12);
    t[9].n = f(1);
    t[9].n_inv = f(1);
    assert_eq!(
        check_trace(&t, &publics(0, 1, 5, 8)),
        Err(CheckFailure::Gate { row: 8, index: 3 })
    );
}

#[test]
fn wrong_inverse_witness_is_rejected() {
    let mut t = fib_trace(5, 12);
    t[2].n_inv = f(2);
    assert_eq!(
        check_trace(&t, &publics(0, 1, 5, 8)),
        Err(CheckFailure::Gate { row: 2, index: 0 })
    );
}

#[test]
fn wrong_step_is_rejected() {
    let mut t = fib_trace(5, 12);
    // row 3 holds (l, r) = (2, 3): make r = 4
    t[3].r = f(4);
    assert_eq!(
        check_trace(&t, &publics(0, 1, 5, 8)),
        Err(CheckFailure::Gate { row: 2, index: 4 })
    );
}

#[test]
fn shape_errors() {
    let t = fib_trace(5, 12);
    assert_eq!(check_trace(&t, &vec![f(0), f(1), f(5)]), Err(CheckFailure::Shape));
    assert_eq!(check_trace(&Vec::new(), &publics(0, 1, 5, 8)), Err(CheckFailure::Shape));
}

#[test]
fn zero_test_gadget() {
    let zero = f(0);
    let five = f(5);
    // the assignment routine's witness for 5 is its inverse
    let inv5 = first_row(&zero, &zero, 5).n_inv;
    assert!(!same(&inv5, &five));
    assert!(same(&is_zero_predicate(&zero, &zero), &f(1)));
    assert!(same(&is_zero_predicate(&zero, &f(7)), &f(1)));
    assert!(same(&zero_gate(&zero, &zero), &zero));
    assert!(zero_gate_holds(&zero, &zero));
    assert!(zero_gate_holds(&zero, &f(3)));
    assert!(same(&is_zero_predicate(&five, &inv5), &zero));
    assert!(zero_gate_holds(&five, &inv5));
    assert!(!zero_gate_holds(&five, &zero));
    assert!(!zero_gate_holds(&five, &f(2)));
    assert!(!same(&zero_gate(&five, &f(2)), &zero));
    // 1 - 5 * 2 = -9
    let minus_nine = is_zero_predicate(&five, &f(2));
    let b = minus_nine.to_bytes();
    assert_eq!(b[0], 0xf8);
    assert_eq!(b[31], 0x40);
    // the witness for zero is zero
    assert!(same(&first_row(&zero, &zero, 0).n_inv, &zero));
    assert!(same(&first_row(&zero, &zero, 1).n_inv, &f(1)));
}

#[test]
fn field_arithmetic_through_the_trace() {
    // one step from (3, 4) leaves 7
    assert!(same(&expected_result(&f(3), &f(4), 1), &f(7)));
    // the counter is decremented: 10 - 1
    let r = next_row(&first_row(&f(3), &f(4), 10));
    assert!(same(&r.n, &f(9)));
    assert!(same(&r.r, &f(7)));
    assert!(same(&r.l, &f(4)));
    // 6 * 7 = 42 and the gadget sees 1 - 42 = -41, which is not zero
    assert!(!zero_gate_holds(&f(6), &f(7)));
    // 1 - 3 * inv(3) = 0
    let inv3 = first_row(&f(0), &f(0), 3).n_inv;
    assert!(same(&is_zero_predicate(&f(3), &inv3), &f(0)));
    // sums wrap around the modulus: 0 - 1 = p - 1, then (p - 1) + 1 = 0
    let minus_one = is_zero_predicate(&f(1), &f(2));
    assert!(same(&expected_result(&minus_one, &f(1), 1), &f(0)));
}

#[test]
fn field_encoding() {
    let b = f(0x0102).to_bytes();
    assert_eq!(b[0], 2);
    assert_eq!(b[1], 1);
    assert!(b[2..].iter().all(|x| *x == 0));
    let back = Felt::from_bytes(b).unwrap();
    assert!(same(&back, &f(0x0102)));
    assert!(Felt::from_bytes([0xff; 32]).is_none());
    let mut p = [0u8; 32];
    p[0] = 1;
    p[31] = 0x40;
    // p itself is not canonical, p - 1 is
    let mut pm1 = p;
    pm1[0] = 0;
    assert!(Felt::from_bytes(pm1).is_some());
    let p_bytes = [
        0x01, 0x00, 0x00, 0x00, 0xed, 0x30, 0x2d, 0x99, 0x1b, 0xf9, 0x4c, 0x09, 0xfc, 0x98, 0x46,
        0x22, 0x00, 0x00, 0x00, 0x00, 0x00, 0x00, 0x00, 0x00, 0x00, 0x00, 0x00, 0x00, 0x00, 0x00,
        0x00, 0x40,
    ];
    assert!(Felt::from_bytes(p_bytes).is_none());
    let mut below = p_bytes;
    below[0] = 0;
    assert!(Felt::from_bytes(below).is_some());
}

#[test]
fn rows_and_gates() {
    let r0 = first_row(&f(0), &f(1), 3);
    assert!(same(&r0.n, &f(3)));
    assert!(same(&is_zero_predicate(&f(3), &r0.n_inv), &f(0)));
    let r1 = next_row(&r0);
    assert!(same(&r1.n, &f(2)));
    assert!(same(&r1.l, &f(1)));
    assert!(same(&r1.r, &f(1)));
    let g = gate_values(&r0, &r1);
    assert_eq!(g.len(), NUM_GATES);
    assert!(g.iter().all(|v| same(v, &f(0))));
    let stop = first_row(&f(4), &f(6), 0);
    let frozen = next_row(&stop);
    assert!(same(&frozen.n, &f(0)));
    assert!(same(&frozen.l, &f(6)));
    assert!(same(&frozen.r, &f(6)));
    assert!(gate_values(&stop, &frozen).iter().all(|v| same(v, &f(0))));
}
