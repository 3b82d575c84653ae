use vstd::prelude::*;

use crate::annotate::{
    context, get_type, get_value, lemma_fresh_consistent, skeleton, typing, valuing, ElabError,
    LoweredExpr, TpModel,
};
use crate::ast::Expr;
use crate::lower::{lower_expr, lowering, LowerError};
use crate::stack::BindingStack;
use crate::value::{outcome, Term, Value};

verus! {

/// Why a closed expression has no value.
#[derive(Clone, Copy, PartialEq, Eq, Structural, Debug)]
pub enum EvalError {
    Lower(LowerError),
    Elab(ElabError),
}

/// The value of the closed expression `e`: lowered with no name in scope,
/// typed, then valued, in the empty context.
pub open spec fn evaluation(e: Expr) -> Result<Term, EvalError> {
    match lowering(e, Seq::empty(), 0) {
        Err(x) => Err(EvalError::Lower(x)),
        Ok(c) => match typing(c, Seq::empty()) {
            Err(x) => Err(EvalError::Elab(x)),
            Ok(_) => match valuing(c, Seq::empty()) {
                Ok(v) => Ok(v),
                Err(x) => Err(EvalError::Elab(x)),
            },
        },
    }
}

/// Evaluates a closed expression to its normal form.
pub fn evaluate(expr: Expr) -> (r: Result<Value, EvalError>)
    ensures
        outcome(r) == evaluation(expr),
{
    let mut names: Vec<(String, usize)> = Vec::new();
    let ghost empty = Seq::<TpModel>::empty();
    assert(crate::lower::scope_of(names@) =~= Seq::empty());
    let mut lowered: LoweredExpr = match lower_expr(expr, &mut names, 0) {
        Ok(l) => l,
        Err(x) => {
            return Err(EvalError::Lower(x));
        },
    };
    let bindings: BindingStack<'_, crate::annotate::Tp> = BindingStack::Empty;
    assert(context(bindings) =~= empty);
    proof {
        lemma_fresh_consistent(lowered, empty);
    }
    match get_type(&mut lowered, bindings) {
        Ok(_) => {},
        Err(x) => {
            return Err(EvalError::Elab(x));
        },
    }
    match get_value(&mut lowered, Ghost(empty)) {
        Ok(v) => Ok(v),
        Err(x) => Err(EvalError::Elab(x)),
    }
}

} // verus!
