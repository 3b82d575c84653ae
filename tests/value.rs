use coc::value::{Intrinsic, IntrinsicMinter, NormalizeError, Universe, Value};

fn b(level: usize) -> Value {
    Value::Binding { level }
}

fn lam(inner: Value) -> Value {
    Value::Lambda { inner: Box::new(inner) }
}

fn app(left: Value, right: Value) -> Value {
    Value::Application { left: Box::new(left), right: Box::new(right) }
}

fn u(level: usize) -> Value {
    Value::Universe(Universe::Type { level })
}

#[test]
fn beta_reduces_the_identity() {
    assert_eq!(app(lam(b(0)), u(3)).normalize(10), Ok(u(3)));
}

#[test]
fn beta_reduction_matches_substitution() {
    let body = app(b(0), b(0));
    let argument = lam(b(0));
    let direct = body.clone().substitute(argument.clone(), 9);
    assert_eq!(app(lam(body), argument).normalize(10), direct);
    assert_eq!(direct, Ok(lam(b(0))));
}

#[test]
fn self_application_runs_out_of_fuel() {
    let omega = lam(app(b(0), b(0)));
    assert_eq!(app(omega.clone(), omega).normalize(50), Err(NormalizeError::OutOfFuel));
}

#[test]
fn substitution_shifts_the_argument_under_binders() {
    // index 2 under two lambdas refers to the substituted variable
    let t = lam(lam(b(2)));
    assert_eq!(t.substitute_n(&b(5), 0), Some(lam(lam(b(7)))));
}

#[test]
fn substitution_drops_higher_indices() {
    assert_eq!(b(4).substitute_n(&u(0), 1), Some(b(3)));
    assert_eq!(b(0).substitute_n(&u(0), 1), Some(b(0)));
}

#[test]
fn shifting_adds_to_every_index() {
    let t = lam(app(b(0), b(3)));
    assert_eq!(t.add_to_bindings(2), Some(lam(app(b(2), b(5)))));
}

#[test]
fn shifting_past_the_index_range_fails() {
    assert_eq!(b(usize::MAX).add_to_bindings(1), None);
    assert_eq!(b(usize::MAX - 1).add_to_bindings(1), Some(b(usize::MAX)));
}

#[test]
fn applied_witness_stays_witness() {
    assert_eq!(app(Value::Witness, u(0)).normalize(1), Ok(Value::Witness));
}

#[test]
fn intrinsics_collect_arguments() {
    let head = Intrinsic { id: 7 };
    let e = app(
        app(Value::Intrinsic { head, arguments: Vec::new() }, app(lam(b(0)), u(1))),
        u(2),
    );
    let expected = Value::Intrinsic { head, arguments: vec![u(1), u(2)] };
    assert_eq!(e.normalize(5), Ok(expected));
}

#[test]
fn intrinsics_compare_by_handle() {
    let a = Value::Intrinsic { head: Intrinsic { id: 1 }, arguments: vec![u(0)] };
    let c = Value::Intrinsic { head: Intrinsic { id: 2 }, arguments: vec![u(0)] };
    assert!(a == a.clone());
    assert!(a != c);
}

#[test]
fn stuck_application_is_kept() {
    let e = app(b(0), app(lam(b(0)), u(1)));
    assert_eq!(e.normalize(3), Ok(app(b(0), u(1))));
}

#[test]
fn minted_handles_are_distinct() {
    let mut minter = IntrinsicMinter::new();
    let first = minter.mint().unwrap();
    let second = minter.mint().unwrap();
    assert_ne!(first, second);
    let a = Value::Intrinsic { head: first, arguments: Vec::new() };
    let b = Value::Intrinsic { head: second, arguments: Vec::new() };
    assert!(a != b);
}
