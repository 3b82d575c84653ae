use coc::annotate::{get_type, ElabError, LoweredExpr, Tp, Vtp, VtpStore};
use coc::ast::{Expr, ExprData};
use coc::lower::lower_expr;
use coc::stack::BindingStack;
use coc::utils::Span;
use coc::value::{NormalizeError, Universe, Value};

fn universe(level: usize) -> Value {
    Value::Universe(Universe::Type { level })
}

fn external(value: Value, type_of: Value) -> LoweredExpr {
    LoweredExpr::External {
        vtp: Vtp { value, type_of, is_propositional: false },
        vtp_store: VtpStore::new(),
    }
}

#[test]
fn second_get_type_returns_the_kept_type() {
    let e = Expr {
        data: ExprData::Type { level: 4 },
        span: Span { start: 0, end: 1 },
    };
    let mut lowered = lower_expr(e, &mut Vec::new(), 0).unwrap();
    let first = get_type(&mut lowered, BindingStack::Empty);
    assert_eq!(first, Ok(universe(5)));
    assert!(lowered.vtp_store_im().tp.is_some());
    let second = get_type(&mut lowered, BindingStack::Empty);
    assert_eq!(second, first);
}

#[test]
fn a_filled_slot_is_not_recomputed() {
    let mut e = external(universe(0), universe(1));
    if let LoweredExpr::External { vtp_store, .. } = &mut e {
        vtp_store.tp = Some(Tp { inner: universe(7), is_propositional: false });
    }
    assert_eq!(get_type(&mut e, BindingStack::Empty), Ok(universe(7)));
}

#[test]
fn index_past_the_context_is_unbound() {
    let mut e = LoweredExpr::Binding { level: 0, vtp_store: VtpStore::new() };
    assert_eq!(get_type(&mut e, BindingStack::Empty), Err(ElabError::UnboundIndex));
    let frame = Tp { inner: universe(0), is_propositional: false };
    let empty = BindingStack::Empty;
    let stack = empty.add_value(&frame);
    let mut e = LoweredExpr::Binding { level: 0, vtp_store: VtpStore::new() };
    assert_eq!(get_type(&mut e, stack), Ok(universe(0)));
}

#[test]
fn non_terminating_argument_type_runs_out_of_fuel() {
    // a function of type Fn(_ : *) -> * applied to a constant whose type is
    // Set_0; the type of the application substitutes a self-application
    let omega = || Value::Lambda {
        inner: Box::new(Value::Application {
            left: Box::new(Value::Binding { level: 0 }),
            right: Box::new(Value::Binding { level: 0 }),
        }),
    };
    let loop_type = Value::PiType {
        parameter_type: Box::new(universe(0)),
        inner: Box::new(Value::Application {
            left: Box::new(Value::Binding { level: 0 }),
            right: Box::new(Value::Binding { level: 0 }),
        }),
        is_propositional: false,
    };
    let mut e = LoweredExpr::Application {
        left: Box::new(external(universe(0), loop_type)),
        right: Box::new(external(omega(), universe(0))),
        vtp_store: VtpStore::new(),
    };
    assert_eq!(
        get_type(&mut e, BindingStack::Empty),
        Err(ElabError::Normalize(NormalizeError::OutOfFuel))
    );
}
