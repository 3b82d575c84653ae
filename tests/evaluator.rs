use coc::annotate::{get_type, ElabError};
use coc::ast::{Binding, BindingData, Expr, ExprData, TypedBinding, TypedBindingData};
use coc::evaluator::{evaluate, EvalError};
use coc::lower::{lower_expr, LowerError};
use coc::stack::BindingStack;
use coc::utils::Span;
use coc::value::{Universe, Value};

fn span() -> Span {
    Span { start: 0, end: 0 }
}

fn expr(data: ExprData) -> Expr {
    Expr { data, span: span() }
}

fn star(level: usize) -> Expr {
    expr(ExprData::Type { level })
}

fn prop() -> Expr {
    expr(ExprData::Prop)
}

fn var(name: &str) -> Expr {
    expr(ExprData::Value { path: vec![name.to_string()] })
}

fn app(left: Expr, right: Expr) -> Expr {
    expr(ExprData::Application { left: Box::new(left), right: Box::new(right) })
}

fn param(name: &str, ascribed: Option<Expr>) -> TypedBinding {
    let binding = Binding {
        data: if name == "_" {
            BindingData::Underscore
        } else {
            BindingData::Identifier { binding_name: name.to_string() }
        },
        span: span(),
    };
    TypedBinding { data: TypedBindingData { binding, ascribed_type: ascribed }, span: span() }
}

fn lam(params: Vec<(&str, Expr)>, body: Expr) -> Expr {
    let args = params.into_iter().map(|(n, t)| param(n, Some(t))).collect();
    expr(ExprData::FnLowercase { args, return_type: None, body: Box::new(body) })
}

fn pi(params: Vec<(&str, Expr)>, ret: Expr) -> Expr {
    let args = params.into_iter().map(|(n, t)| param(n, Some(t))).collect();
    expr(ExprData::FnUppercase { args, return_type: Box::new(ret) })
}

fn universe(level: usize) -> Value {
    Value::Universe(Universe::Type { level })
}

fn type_of(e: Expr) -> Result<Value, ElabError> {
    let mut names: Vec<(String, usize)> = Vec::new();
    let mut lowered = lower_expr(e, &mut names, 0).unwrap();
    get_type(&mut lowered, BindingStack::Empty)
}

fn pi_value(parameter: Value, inner: Value, is_propositional: bool) -> Value {
    Value::PiType { parameter_type: Box::new(parameter), inner: Box::new(inner), is_propositional }
}

#[test]
fn universe_literal_evaluates_to_itself() {
    assert_eq!(evaluate(star(0)), Ok(universe(0)));
    assert_eq!(type_of(star(0)), Ok(universe(1)));
}

#[test]
fn prop_has_type_set_zero() {
    assert_eq!(evaluate(prop()), Ok(Value::Universe(Universe::Prop)));
    assert_eq!(type_of(prop()), Ok(universe(0)));
}

#[test]
fn pi_over_set_zero_lives_in_set_one() {
    let e = pi(vec![("x", star(0))], star(0));
    assert_eq!(evaluate(e), Ok(pi_value(universe(0), universe(0), false)));
    let e = pi(vec![("x", star(0))], star(0));
    assert_eq!(type_of(e), Ok(universe(1)));
}

#[test]
fn universe_rule_takes_the_larger_level() {
    assert_eq!(type_of(pi(vec![("x", star(3))], star(1))), Ok(universe(4)));
    assert_eq!(type_of(pi(vec![("x", star(1))], star(5))), Ok(universe(6)));
}

#[test]
fn pi_into_a_proposition_is_a_proposition() {
    // Fn(q : ?, h : q) -> q
    let e = pi(vec![("q", prop()), ("h", var("q"))], var("q"));
    assert_eq!(type_of(e), Ok(Value::Universe(Universe::Prop)));
}

#[test]
fn pi_into_prop_itself_takes_the_parameter_universe() {
    // the codomain `?` is Prop itself, whose type is Set_0
    assert_eq!(type_of(pi(vec![("x", star(0))], prop())), Ok(universe(1)));
}

#[test]
fn identity_over_set_zero_rejects_a_universe_argument() {
    let id = lam(vec![("A", star(0)), ("x", var("A"))], var("x"));
    let e = app(app(id, star(0)), star(0));
    assert_eq!(evaluate(e), Err(EvalError::Elab(ElabError::TypeMismatch)));
}

#[test]
fn identity_returns_its_argument() {
    let id = lam(vec![("A", star(1)), ("x", var("A"))], var("x"));
    let e = app(app(id, star(0)), pi(vec![("p", prop())], prop()));
    let expected = pi_value(Value::Universe(Universe::Prop), Value::Universe(Universe::Prop), false);
    assert_eq!(evaluate(e), Ok(expected));
}

#[test]
fn identity_applied_to_a_function() {
    let id = lam(vec![("A", star(1)), ("x", var("A"))], var("x"));
    let f = lam(vec![("n", star(0))], var("n"));
    let e = app(app(id, pi(vec![("n", star(0))], star(0))), f);
    assert_eq!(evaluate(e), Ok(Value::Lambda { inner: Box::new(Value::Binding { level: 0 }) }));
}

#[test]
fn proofs_collapse_to_witness() {
    // fn(r : ?, s : r), s  and  fn(r : ?, s : r, t : r), s
    let first = lam(vec![("r", prop()), ("s", var("r"))], var("s"));
    let second = lam(vec![("r", prop()), ("s", var("r")), ("t", var("r"))], var("s"));
    assert_eq!(evaluate(first), Ok(Value::Witness));
    assert_eq!(evaluate(second), Ok(Value::Witness));
}

#[test]
fn lambda_value_keeps_indices() {
    let e = lam(vec![("a", star(0)), ("b", star(0))], var("a"));
    let expected = Value::Lambda {
        inner: Box::new(Value::Lambda { inner: Box::new(Value::Binding { level: 1 }) }),
    };
    assert_eq!(evaluate(e), Ok(expected));
}

#[test]
fn application_of_a_non_function_is_rejected() {
    assert_eq!(evaluate(app(star(0), star(0))), Err(EvalError::Elab(ElabError::PiExpected)));
}

#[test]
fn parameter_type_must_be_a_type() {
    // fn(x : *, y : x) — fine; fn(f : (fn(a : *), a), y : f) — f is not a type
    let f_type = lam(vec![("a", star(0))], var("a"));
    let e = lam(vec![("f", pi(vec![("a", star(0))], star(0))), ("y", var("f"))], var("y"));
    assert_eq!(evaluate(e), Err(EvalError::Elab(ElabError::UniverseExpected)));
    let e = lam(vec![("y", f_type)], var("y"));
    assert_eq!(evaluate(e), Err(EvalError::Elab(ElabError::UniverseExpected)));
}

#[test]
fn unbound_name_is_a_lowering_error() {
    assert_eq!(evaluate(var("nowhere")), Err(EvalError::Lower(LowerError::UnboundName)));
}

#[test]
fn names_go_out_of_scope() {
    let e = app(lam(vec![("a", star(0))], var("a")), var("a"));
    assert_eq!(evaluate(e), Err(EvalError::Lower(LowerError::UnboundName)));
}

#[test]
fn missing_ascription_is_a_lowering_error() {
    let e = expr(ExprData::FnLowercase {
        args: vec![param("x", None)],
        return_type: None,
        body: Box::new(var("x")),
    });
    assert_eq!(evaluate(e), Err(EvalError::Lower(LowerError::MissingAscription)));
}

#[test]
fn unsupported_constructs_are_lowering_errors() {
    let block = expr(ExprData::Block { statements: Vec::new() });
    assert_eq!(evaluate(block), Err(EvalError::Lower(LowerError::Unsupported)));
    let path = expr(ExprData::Value { path: vec!["a".to_string(), "b".to_string()] });
    assert_eq!(evaluate(path), Err(EvalError::Lower(LowerError::Unsupported)));
    let with_return = expr(ExprData::FnLowercase {
        args: vec![param("x", Some(star(0)))],
        return_type: Some(Box::new(star(0))),
        body: Box::new(var("x")),
    });
    assert_eq!(evaluate(with_return), Err(EvalError::Lower(LowerError::Unsupported)));
}

#[test]
fn universe_level_overflow_is_a_lowering_error() {
    assert_eq!(evaluate(star(usize::MAX)), Err(EvalError::Lower(LowerError::LevelOverflow)));
}

#[test]
fn shadowing_resolves_to_the_innermost_binder() {
    let e = lam(vec![("a", star(0)), ("a", star(0))], var("a"));
    let expected = Value::Lambda {
        inner: Box::new(Value::Lambda { inner: Box::new(Value::Binding { level: 0 }) }),
    };
    assert_eq!(evaluate(e), Ok(expected));
}

#[test]
fn underscore_binders_take_a_level() {
    let e = lam(vec![("a", star(0)), ("_", star(0))], var("a"));
    let expected = Value::Lambda {
        inner: Box::new(Value::Lambda { inner: Box::new(Value::Binding { level: 1 }) }),
    };
    assert_eq!(evaluate(e), Ok(expected));
}

#[test]
fn grouping_is_transparent() {
    let e = expr(ExprData::Grouping { inner: Box::new(star(2)) });
    assert_eq!(evaluate(e), Ok(universe(2)));
}
