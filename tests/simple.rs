use fib_circuit::checker::CheckFailure;
use fib_circuit::field::Felt;
use fib_circuit::simple::{build_simple_trace, check_simple_trace, simple_next_row, simple_setup};
use fib_circuit::trace::{expected_result, ConfigError, MAX_ROWS};

fn f(x: u64) -> Felt {
    Felt::from_u64(x)
}

fn same(a: &Felt, b: &Felt) -> bool {
    a.to_bytes() == b.to_bytes()
}

#[test]
fn simple_n5_accepts_8() {
    let t = build_simple_trace(&f(0), &f(1), 5).unwrap();
    assert_eq!(t.len(), 5);
    assert!(same(&t[4].c, &f(8)));
    assert_eq!(check_simple_trace(&t, &vec![f(0), f(1), f(8)]), Ok(()));
    assert_eq!(
        check_simple_trace(&t, &vec![f(1), f(1), f(8)]),
        Err(CheckFailure::Public { index: 0 })
    );
    assert_eq!(
        check_simple_trace(&t, &vec![f(0), f(1), f(18)]),
        Err(CheckFailure::Public { index: 2 })
    );
}

#[test]
fn simple_n10_gives_89() {
    let t = build_simple_trace(&f(0), &f(1), 10).unwrap();
    assert_eq!(check_simple_trace(&t, &vec![f(0), f(1), f(89)]), Ok(()));
}

#[test]
fn simple_matches_reference_and_bounds() {
    for n in 1..40u64 {
        let t = build_simple_trace(&f(0), &f(1), n).unwrap();
        let expected = expected_result(&f(0), &f(1), n);
        assert_eq!(check_simple_trace(&t, &vec![f(0), f(1), expected]), Ok(()));
    }
    assert!(build_simple_trace(&f(0), &f(1), (MAX_ROWS - 1) as u64).is_ok());
    assert_eq!(build_simple_trace(&f(0), &f(1), 0).unwrap_err(), ConfigError::NoSteps);
    assert_eq!(
        build_simple_trace(&f(0), &f(1), MAX_ROWS as u64).unwrap_err(),
        ConfigError::CounterOutOfRange
    );
}

#[test]
fn simple_tampering_is_rejected() {
    let mut t = build_simple_trace(&f(0), &f(1), 5).unwrap();
    t[2].c = f(4);
    assert_eq!(
        check_simple_trace(&t, &vec![f(0), f(1), f(8)]),
        Err(CheckFailure::Gate { row: 2, index: 0 })
    );
    let mut t = build_simple_trace(&f(0), &f(1), 5).unwrap();
    t[3] = simple_setup(&f(1), &f(3));
    assert_eq!(
        check_simple_trace(&t, &vec![f(0), f(1), f(8)]),
        Err(CheckFailure::Gate { row: 2, index: 1 })
    );
    let mut t = build_simple_trace(&f(0), &f(1), 5).unwrap();
    t[3] = simple_setup(&f(2), &f(4));
    assert_eq!(
        check_simple_trace(&t, &vec![f(0), f(1), f(8)]),
        Err(CheckFailure::Gate { row: 2, index: 2 })
    );
    assert_eq!(check_simple_trace(&Vec::new(), &vec![f(0), f(1), f(8)]), Err(CheckFailure::Shape));
}

#[test]
fn simple_rows() {
    let r0 = simple_setup(&f(2), &f(3));
    assert!(same(&r0.c, &f(5)));
    let r1 = simple_next_row(&r0);
    assert!(same(&r1.a, &f(3)) && same(&r1.b, &f(5)) && same(&r1.c, &f(8)));
}
