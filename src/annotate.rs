use vstd::prelude::*;

use crate::stack::BindingStack;
use crate::value::{
    lemma_beta_reduction, normal_form, substitution, NormalizeError, Term, Universe, Value,
};

verus! {

/// Nested beta-reductions allowed to each normalization the annotator runs.
pub const NORMALIZE_FUEL: u64 = 1024;

/// Why a lowered expression has no type or no value.
#[derive(Clone, Copy, PartialEq, Eq, Structural, Debug)]
pub enum ElabError {
    /// The type of a parameter type or of a return type is not a universe.
    UniverseExpected,
    /// The left side of an application does not have a dependent function type.
    PiExpected,
    /// An argument's type differs from the parameter type.
    TypeMismatch,
    /// A de Bruijn index reaches past every enclosing binder.
    UnboundIndex,
    /// Normalizing a value failed.
    Normalize(NormalizeError),
}

/// A type, with whether it lives in `Prop`.
pub struct Tp {
    pub inner: Value,
    pub is_propositional: bool,
}

/// The model of a `Tp`.
pub struct TpModel {
    pub inner: Term,
    pub is_propositional: bool,
}

impl View for Tp {
    type V = TpModel;

    open spec fn view(&self) -> TpModel {
        TpModel { inner: self.inner@, is_propositional: self.is_propositional }
    }
}

impl Clone for Tp {
    fn clone(&self) -> (r: Tp)
        ensures
            r@ == self@,
    {
        Tp { inner: self.inner.clone(), is_propositional: self.is_propositional }
    }
}

/// An already-typed constant: its value, its type, and whether that type lives in `Prop`.
pub struct Vtp {
    pub value: Value,
    pub type_of: Value,
    pub is_propositional: bool,
}

/// The annotation slot of a lowered node: its value and its type, once known.
pub struct VtpStore {
    pub value: Option<Value>,
    pub tp: Option<Tp>,
}

/// A lowered expression: nameless, with an annotation slot on every node.
pub enum LoweredExpr {
    Lambda { parameter_type: Box<LoweredExpr>, inner: Box<LoweredExpr>, vtp_store: VtpStore },
    PiType {
        parameter_type: Box<LoweredExpr>,
        return_type: Box<LoweredExpr>,
        vtp_store: VtpStore,
    },
    Application { left: Box<LoweredExpr>, right: Box<LoweredExpr>, vtp_store: VtpStore },
    Binding { level: usize, vtp_store: VtpStore },
    External { vtp: Vtp, vtp_store: VtpStore },
}

/// A lowered expression without its annotation slots.
pub enum Core {
    Lambda { parameter_type: Box<Core>, inner: Box<Core> },
    PiType { parameter_type: Box<Core>, return_type: Box<Core> },
    Application { left: Box<Core>, right: Box<Core> },
    Binding { level: nat },
    External { value: Term, type_of: Term, is_propositional: bool },
}

pub open spec fn skeleton(e: LoweredExpr) -> Core
    decreases e,
{
    match e {
        LoweredExpr::Lambda { parameter_type, inner, .. } => Core::Lambda {
            parameter_type: Box::new(skeleton(*parameter_type)),
            inner: Box::new(skeleton(*inner)),
        },
        LoweredExpr::PiType { parameter_type, return_type, .. } => Core::PiType {
            parameter_type: Box::new(skeleton(*parameter_type)),
            return_type: Box::new(skeleton(*return_type)),
        },
        LoweredExpr::Application { left, right, .. } => Core::Application {
            left: Box::new(skeleton(*left)),
            right: Box::new(skeleton(*right)),
        },
        LoweredExpr::Binding { level, .. } => Core::Binding { level: level as nat },
        LoweredExpr::External { vtp, .. } => Core::External {
            value: vtp.value@,
            type_of: vtp.type_of@,
            is_propositional: vtp.is_propositional,
        },
    }
}

pub open spec fn store(e: LoweredExpr) -> VtpStore {
    match e {
        LoweredExpr::Lambda { vtp_store, .. } => vtp_store,
        LoweredExpr::PiType { vtp_store, .. } => vtp_store,
        LoweredExpr::Application { vtp_store, .. } => vtp_store,
        LoweredExpr::Binding { vtp_store, .. } => vtp_store,
        LoweredExpr::External { vtp_store, .. } => vtp_store,
    }
}

pub open spec fn with_store(e: LoweredExpr, s: VtpStore) -> LoweredExpr {
    match e {
        LoweredExpr::Lambda { parameter_type, inner, .. } => LoweredExpr::Lambda {
            parameter_type,
            inner,
            vtp_store: s,
        },
        LoweredExpr::PiType { parameter_type, return_type, .. } => LoweredExpr::PiType {
            parameter_type,
            return_type,
            vtp_store: s,
        },
        LoweredExpr::Application { left, right, .. } => LoweredExpr::Application {
            left,
            right,
            vtp_store: s,
        },
        LoweredExpr::Binding { level, .. } => LoweredExpr::Binding { level, vtp_store: s },
        LoweredExpr::External { vtp, .. } => LoweredExpr::External { vtp, vtp_store: s },
    }
}

/// The universe `Prop` as a term.
pub open spec fn prop_term() -> Term {
    Term::Universe(Universe::Prop)
}

/// The type of `c` in the context `ctx`, whose last frame is the innermost binder.
pub open spec fn typing(c: Core, ctx: Seq<TpModel>) -> Result<TpModel, ElabError>
    decreases c, 0nat,
{
    match c {
        Core::Lambda { parameter_type, inner } => match typing(*parameter_type, ctx) {
            Ok(TpModel { inner: Term::Universe(_), .. }) => {
                match valuing(*parameter_type, ctx) {
                    Ok(parameter) => match typing(
                        *inner,
                        ctx.push(binder_frame(*parameter_type, ctx)),
                    ) {
                        Ok(body) => Ok(
                            TpModel {
                                inner: Term::PiType {
                                    parameter_type: Box::new(parameter),
                                    inner: Box::new(body.inner),
                                    is_propositional: body.is_propositional,
                                },
                                is_propositional: body.is_propositional,
                            },
                        ),
                        Err(e) => Err(e),
                    },
                    Err(e) => Err(e),
                }
            },
            Ok(_) => Err(ElabError::UniverseExpected),
            Err(e) => Err(e),
        },
        Core::PiType { parameter_type, return_type } => match typing(*parameter_type, ctx) {
            Ok(TpModel { inner: Term::Universe(parameter_universe), .. }) => {
                match valuing(*parameter_type, ctx) {
                    Ok(_) => match typing(*return_type, ctx.push(binder_frame(*parameter_type, ctx))) {
                        Ok(TpModel { inner: Term::Universe(return_universe), .. }) => Ok(
                            TpModel {
                                inner: Term::Universe(
                                    spec_pi_universe(parameter_universe, return_universe),
                                ),
                                is_propositional: false,
                            },
                        ),
                        Ok(_) => Err(ElabError::UniverseExpected),
                        Err(e) => Err(e),
                    },
                    Err(e) => Err(e),
                }
            },
            Ok(_) => Err(ElabError::UniverseExpected),
            Err(e) => Err(e),
        },
        Core::Application { left, right } => match typing(*left, ctx) {
            Ok(
                TpModel { inner: Term::PiType { parameter_type, inner, is_propositional }, .. },
            ) => match typing(*right, ctx) {
                Ok(argument_type) => if *parameter_type != argument_type.inner {
                    Err(ElabError::TypeMismatch)
                } else {
                    match valuing(*right, ctx) {
                        Ok(argument) => match substitution(
                            *inner,
                            argument,
                            NORMALIZE_FUEL as nat,
                        ) {
                            Ok(t) => Ok(TpModel { inner: t, is_propositional }),
                            Err(e) => Err(ElabError::Normalize(e)),
                        },
                        Err(e) => Err(e),
                    }
                },
                Err(e) => Err(e),
            },
            Ok(_) => Err(ElabError::PiExpected),
            Err(e) => Err(e),
        },
        Core::Binding { level } => if level < ctx.len() {
            Ok(ctx[ctx.len() - 1 - level])
        } else {
            Err(ElabError::UnboundIndex)
        },
        Core::External { type_of, is_propositional, .. } => Ok(
            TpModel { inner: type_of, is_propositional },
        ),
    }
}

/// The frame that a binder with parameter type `parameter_type` pushes on `ctx`.
pub open spec fn binder_frame(parameter_type: Core, ctx: Seq<TpModel>) -> TpModel
    decreases parameter_type, 3nat,
{
    TpModel {
        inner: match valuing(parameter_type, ctx) {
            Ok(v) => v,
            Err(_) => Term::Witness,
        },
        is_propositional: typing(parameter_type, ctx) matches Ok(t) && t.inner == prop_term(),
    }
}

/// The normal-form value of `c` in the context `ctx`: `Witness` where the type
/// of `c` lives in `Prop`.
pub open spec fn valuing(c: Core, ctx: Seq<TpModel>) -> Result<Term, ElabError>
    decreases c, 2nat,
{
    match typing(c, ctx) {
        Err(e) => Err(e),
        Ok(t) => if t.is_propositional {
            Ok(Term::Witness)
        } else {
            structural_value(c, ctx)
        },
    }
}

/// The value of `c` built from the values of its parts, whatever its type.
pub open spec fn structural_value(c: Core, ctx: Seq<TpModel>) -> Result<Term, ElabError>
    decreases c, 1nat,
{
    match c {
        Core::Lambda { parameter_type, inner } => match valuing(
            *inner,
            ctx.push(binder_frame(*parameter_type, ctx)),
        ) {
            Ok(body) => Ok(Term::Lambda { inner: Box::new(body) }),
            Err(e) => Err(e),
        },
        Core::PiType { parameter_type, return_type } => match valuing(*parameter_type, ctx) {
            Ok(parameter) => {
                let frame = binder_frame(*parameter_type, ctx);
                match typing(*return_type, ctx.push(frame)) {
                    Ok(TpModel { inner: Term::Universe(return_universe), .. }) => {
                        match valuing(*return_type, ctx.push(frame)) {
                            Ok(ret) => Ok(
                                Term::PiType {
                                    parameter_type: Box::new(parameter),
                                    inner: Box::new(ret),
                                    is_propositional: return_universe == Universe::Prop,
                                },
                            ),
                            Err(e) => Err(e),
                        }
                    },
                    Ok(_) => Err(ElabError::UniverseExpected),
                    Err(e) => Err(e),
                }
            },
            Err(e) => Err(e),
        },
        Core::Application { left, right } => match valuing(*left, ctx) {
            Ok(l) => match valuing(*right, ctx) {
                Ok(r) => match normal_form(
                    Term::Application { left: Box::new(l), right: Box::new(r) },
                    NORMALIZE_FUEL as nat,
                ) {
                    Ok(v) => Ok(v),
                    Err(e) => Err(ElabError::Normalize(e)),
                },
                Err(e) => Err(e),
            },
            Err(e) => Err(e),
        },
        Core::Binding { level } => Ok(Term::Binding { level }),
        Core::External { value, .. } => Ok(value),
    }
}

/// The annotation slot of `e` holds a type.
pub open spec fn typed(e: LoweredExpr) -> bool {
    store(e).tp is Some
}

/// The direct parts of `e` hold types.
pub open spec fn parts_typed(e: LoweredExpr) -> bool {
    match e {
        LoweredExpr::Lambda { parameter_type, inner, .. } => typed(*parameter_type) && typed(
            *inner,
        ),
        LoweredExpr::PiType { parameter_type, return_type, .. } => typed(*parameter_type)
            && typed(*return_type),
        LoweredExpr::Application { left, right, .. } => typed(*left) && typed(*right),
        _ => true,
    }
}

/// Every filled slot of `e`, read in the context `ctx`, holds what `typing`
/// and `valuing` give for its node; a typed node has typed parts.
pub open spec fn consistent(e: LoweredExpr, ctx: Seq<TpModel>) -> bool
    decreases e,
{
    &&& (store(e).tp matches Some(t) ==> typing(skeleton(e), ctx) == Ok::<TpModel, ElabError>(t@))
    &&& (store(e).value matches Some(v) ==> typed(e) && valuing(skeleton(e), ctx) == Ok::<Term, ElabError>(v@))
    &&& (typed(e) ==> parts_typed(e))
    &&& match e {
        LoweredExpr::Lambda { parameter_type, inner, .. } => consistent(*parameter_type, ctx)
            && consistent(*inner, ctx.push(binder_frame(skeleton(*parameter_type), ctx))),
        LoweredExpr::PiType { parameter_type, return_type, .. } => consistent(
            *parameter_type,
            ctx,
        ) && consistent(*return_type, ctx.push(binder_frame(skeleton(*parameter_type), ctx))),
        LoweredExpr::Application { left, right, .. } => consistent(*left, ctx) && consistent(
            *right,
            ctx,
        ),
        _ => true,
    }
}

/// No slot of `e` is filled.
pub open spec fn fresh(e: LoweredExpr) -> bool
    decreases e,
{
    &&& store(e).tp is None
    &&& store(e).value is None
    &&& match e {
        LoweredExpr::Lambda { parameter_type, inner, .. } => fresh(*parameter_type) && fresh(
            *inner,
        ),
        LoweredExpr::PiType { parameter_type, return_type, .. } => fresh(*parameter_type)
            && fresh(*return_type),
        LoweredExpr::Application { left, right, .. } => fresh(*left) && fresh(*right),
        _ => true,
    }
}

/// A tree with no filled slot is consistent in every context.
pub proof fn lemma_fresh_consistent(e: LoweredExpr, ctx: Seq<TpModel>)
    requires
        fresh(e),
    ensures
        consistent(e, ctx),
    decreases e,
{
    match e {
        LoweredExpr::Lambda { parameter_type, inner, .. } => {
            lemma_fresh_consistent(*parameter_type, ctx);
            lemma_fresh_consistent(*inner, ctx.push(binder_frame(skeleton(*parameter_type), ctx)));
        },
        LoweredExpr::PiType { parameter_type, return_type, .. } => {
            lemma_fresh_consistent(*parameter_type, ctx);
            lemma_fresh_consistent(
                *return_type,
                ctx.push(binder_frame(skeleton(*parameter_type), ctx)),
            );
        },
        LoweredExpr::Application { left, right, .. } => {
            lemma_fresh_consistent(*left, ctx);
            lemma_fresh_consistent(*right, ctx);
        },
        _ => {},
    }
}

/// The models of the frames of a binding stack.
pub open spec fn context(b: BindingStack<Tp>) -> Seq<TpModel> {
    b.frames().map_values(|t: Tp| t@)
}

/// The model of an outcome that carries a type.
pub open spec fn tp_outcome(r: Result<Tp, ElabError>) -> Result<TpModel, ElabError> {
    match r {
        Ok(t) => Ok(t@),
        Err(e) => Err(e),
    }
}

/// The type part of a typing outcome.
pub open spec fn type_part(r: Result<TpModel, ElabError>) -> Result<Term, ElabError> {
    match r {
        Ok(t) => Ok(t.inner),
        Err(e) => Err(e),
    }
}

/// A normalization outcome as an elaboration outcome.
pub open spec fn normalize_part(r: Result<Term, NormalizeError>) -> Result<Term, ElabError> {
    match r {
        Ok(t) => Ok(t),
        Err(e) => Err(ElabError::Normalize(e)),
    }
}

/// The universe of a dependent function type, given the universes of its
/// parameter type and of its return type.
pub open spec fn spec_pi_universe(parameter: Universe, ret: Universe) -> Universe {
    match ret {
        Universe::Prop => Universe::Prop,
        Universe::Type { level: return_level } => match parameter {
            Universe::Prop => Universe::Type { level: return_level },
            Universe::Type { level: parameter_level } => Universe::Type {
                level: if parameter_level >= return_level {
                    parameter_level
                } else {
                    return_level
                },
            },
        },
    }
}

/// The universe of a dependent function type from those of its parameter
/// type and its return type.
pub fn pi_universe(parameter_universe: Universe, return_universe: Universe) -> (r: Universe)
    ensures
        r == spec_pi_universe(parameter_universe, return_universe),
{
    match return_universe {
        Universe::Prop => Universe::Prop,
        Universe::Type { level: return_level } => match parameter_universe {
            Universe::Prop => Universe::Type { level: return_level },
            Universe::Type { level: parameter_level } => Universe::Type {
                level: if parameter_level >= return_level {
                    parameter_level
                } else {
                    return_level
                },
            },
        },
    }
}


impl VtpStore {
    /// An empty slot.
    pub fn new() -> (r: VtpStore)
        ensures
            r.value is None,
            r.tp is None,
    {
        VtpStore { value: None, tp: None }
    }
}

impl LoweredExpr {
    /// The annotation slot of this node.
    pub fn vtp_store_im(&self) -> (r: &VtpStore)
        ensures
            *r == store(*self),
    {
        match self {
            LoweredExpr::Lambda { vtp_store, .. } => vtp_store,
            LoweredExpr::PiType { vtp_store, .. } => vtp_store,
            LoweredExpr::Application { vtp_store, .. } => vtp_store,
            LoweredExpr::Binding { vtp_store, .. } => vtp_store,
            LoweredExpr::External { vtp_store, .. } => vtp_store,
        }
    }

    /// The annotation slot of this node, to fill.
    pub fn vtp_store(&mut self) -> (r: &mut VtpStore)
        ensures
            *r == store(*old(self)),
            *final(self) == with_store(*old(self), *final(r)),
    {
        match self {
            LoweredExpr::Lambda { vtp_store, .. } => vtp_store,
            LoweredExpr::PiType { vtp_store, .. } => vtp_store,
            LoweredExpr::Application { vtp_store, .. } => vtp_store,
            LoweredExpr::Binding { vtp_store, .. } => vtp_store,
            LoweredExpr::External { vtp_store, .. } => vtp_store,
        }
    }
}

/// Whether the known type of `expr` lives in `Prop`.
pub fn is_propositional(expr: &LoweredExpr) -> (r: bool)
    requires
        typed(*expr),
    ensures
        r == store(*expr).tp->0.is_propositional,
{
    match &expr.vtp_store_im().tp {
        Some(tp) => tp.is_propositional,
        None => vstd::pervasive::unreached(),
    }
}

/// The known type of `expr`.
pub fn assume_type_is_known(expr: &LoweredExpr) -> (r: &Value)
    requires
        typed(*expr),
    ensures
        *r == store(*expr).tp->0.inner,
{
    match &expr.vtp_store_im().tp {
        Some(tp) => &tp.inner,
        None => vstd::pervasive::unreached(),
    }
}

/// The type of `expr` in the context `bindings`, computed once and kept in
/// its slot.
pub fn get_tp(expr: &mut LoweredExpr, bindings: BindingStack<'_, Tp>) -> (r: Result<Tp, ElabError>)
    requires
        consistent(*old(expr), context(bindings)),
    ensures
        tp_outcome(r) == typing(skeleton(*old(expr)), context(bindings)),
        skeleton(*final(expr)) == skeleton(*old(expr)),
        consistent(*final(expr), context(bindings)),
        r is Ok ==> typed(*final(expr)),
        typed(*old(expr)) ==> *final(expr) == *old(expr),
    decreases skeleton(*old(expr)), 3nat,
{
    match &expr.vtp_store_im().tp {
        Some(tp) => {
            return Ok(tp.clone());
        },
        None => {},
    }
    let out = get_tp_uncached(expr, bindings);
    match out {
        Ok(tp) => {
            let kept = tp.clone();
            expr.vtp_store().tp = Some(tp);
            Ok(kept)
        },
        Err(e) => Err(e),
    }
}

/// The type of `expr` in the context `bindings`, as a value; the whole type is
/// kept in the slot of `expr`.
pub fn get_type(expr: &mut LoweredExpr, bindings: BindingStack<'_, Tp>) -> (r: Result<
    Value,
    ElabError,
>)
    requires
        consistent(*old(expr), context(bindings)),
    ensures
        type_call(*old(expr), *final(expr), context(bindings), crate::value::outcome(r)),
    decreases skeleton(*old(expr)), 3nat,
{
    match &expr.vtp_store_im().tp {
        Some(tp) => {
            return Ok(tp.inner.clone());
        },
        None => {},
    }
    match get_tp_uncached(expr, bindings) {
        Ok(tp) => {
            let out = tp.inner.clone();
            expr.vtp_store().tp = Some(tp);
            Ok(out)
        },
        Err(e) => Err(e),
    }
}

/// The value of `expr`, whose type is known, computed once and kept in its
/// slot; `ctx` is the context in which the tree was typed.
pub fn get_value(expr: &mut LoweredExpr, Ghost(ctx): Ghost<Seq<TpModel>>) -> (r: Result<
    Value,
    ElabError,
>)
    requires
        consistent(*old(expr), ctx),
        typed(*old(expr)),
    ensures
        value_call(*old(expr), *final(expr), ctx, crate::value::outcome(r)),
        store(*old(expr)).value is None && store(*old(expr)).tp->0.is_propositional ==> r
            == Ok::<Value, ElabError>(Value::Witness) && *final(expr) == with_store(
            *old(expr),
            store(*final(expr)),
        ),
    decreases skeleton(*old(expr)), 1nat,
{
    match &expr.vtp_store_im().value {
        Some(v) => {
            return Ok(v.clone());
        },
        None => {},
    }
    let value = if is_propositional(expr) {
        Value::Witness
    } else {
        match get_value_uncached(expr, Ghost(ctx)) {
            Ok(v) => v,
            Err(e) => {
                return Err(e);
            },
        }
    };
    let kept = value.clone();
    expr.vtp_store().value = Some(value);
    Ok(kept)
}

/// The value of `expr` built from the values of its parts.
pub fn get_value_uncached(expr: &mut LoweredExpr, Ghost(ctx): Ghost<Seq<TpModel>>) -> (r: Result<
    Value,
    ElabError,
>)
    requires
        consistent(*old(expr), ctx),
        typed(*old(expr)),
    ensures
        crate::value::outcome(r) == structural_value(skeleton(*old(expr)), ctx),
        skeleton(*final(expr)) == skeleton(*old(expr)),
        consistent(*final(expr), ctx),
        store(*final(expr)) == store(*old(expr)),
    decreases skeleton(*old(expr)), 0nat,
{
    match expr {
        LoweredExpr::Lambda { parameter_type, inner, .. } => {
            let ghost frame = binder_frame(skeleton(**parameter_type), ctx);
            match get_value(&mut **inner, Ghost(ctx.push(frame))) {
                Ok(v) => Ok(Value::Lambda { inner: Box::new(v) }),
                Err(e) => Err(e),
            }
        },
        LoweredExpr::PiType { parameter_type, return_type, .. } => {
            let ghost frame = binder_frame(skeleton(**parameter_type), ctx);
            let parameter = match get_value(&mut **parameter_type, Ghost(ctx)) {
                Ok(v) => v,
                Err(e) => {
                    return Err(e);
                },
            };
            assert(consistent(**return_type, ctx.push(frame)));
            let return_universe = match assume_type_is_known(&**return_type) {
                Value::Universe(u) => *u,
                _ => {
                    return Err(ElabError::UniverseExpected);
                },
            };
            match get_value(&mut **return_type, Ghost(ctx.push(frame))) {
                Ok(ret) => Ok(
                    Value::PiType {
                        parameter_type: Box::new(parameter),
                        inner: Box::new(ret),
                        is_propositional: return_universe == Universe::Prop,
                    },
                ),
                Err(e) => Err(e),
            }
        },
        LoweredExpr::Application { left, right, .. } => {
            let l = match get_value(&mut **left, Ghost(ctx)) {
                Ok(v) => v,
                Err(e) => {
                    return Err(e);
                },
            };
            let r = match get_value(&mut **right, Ghost(ctx)) {
                Ok(v) => v,
                Err(e) => {
                    return Err(e);
                },
            };
            match (Value::Application { left: Box::new(l), right: Box::new(r) }).normalize(
                NORMALIZE_FUEL,
            ) {
                Ok(v) => Ok(v),
                Err(e) => Err(ElabError::Normalize(e)),
            }
        },
        LoweredExpr::Binding { level, .. } => Ok(Value::Binding { level: *level }),
        LoweredExpr::External { vtp, .. } => Ok(vtp.value.clone()),
    }
}

/// The type of `expr` in the context `bindings`, computed from its parts.
pub fn get_tp_uncached(expr: &mut LoweredExpr, bindings: BindingStack<'_, Tp>) -> (r: Result<
    Tp,
    ElabError,
>)
    requires
        consistent(*old(expr), context(bindings)),
    ensures
        tp_outcome(r) == typing(skeleton(*old(expr)), context(bindings)),
        skeleton(*final(expr)) == skeleton(*old(expr)),
        consistent(*final(expr), context(bindings)),
        store(*final(expr)) == store(*old(expr)),
        r is Ok ==> parts_typed(*final(expr)),
    decreases skeleton(*old(expr)), 2nat,
{
    let ghost ctx = context(bindings);
    match expr {
        LoweredExpr::Lambda { parameter_type, inner, .. } => {
            let parameter_universe = match get_type(&mut **parameter_type, bindings) {
                Ok(Value::Universe(u)) => u,
                Ok(_) => {
                    return Err(ElabError::UniverseExpected);
                },
                Err(e) => {
                    return Err(e);
                },
            };
            let parameter = match get_value(&mut **parameter_type, Ghost(ctx)) {
                Ok(v) => v,
                Err(e) => {
                    return Err(e);
                },
            };
            let frame = Tp {
                inner: parameter.clone(),
                is_propositional: parameter_universe == Universe::Prop,
            };
            let inner_stack = bindings.add_value(&frame);
            proof {
                assert(context(inner_stack) =~= ctx.push(frame@));
            }
            let body = match get_tp(&mut **inner, inner_stack) {
                Ok(t) => t,
                Err(e) => {
                    return Err(e);
                },
            };
            Ok(
                Tp {
                    inner: Value::PiType {
                        parameter_type: Box::new(parameter),
                        inner: Box::new(body.inner),
                        is_propositional: body.is_propositional,
                    },
                    is_propositional: body.is_propositional,
                },
            )
        },
        LoweredExpr::PiType { parameter_type, return_type, .. } => {
            let parameter_universe = match get_type(&mut **parameter_type, bindings) {
                Ok(Value::Universe(u)) => u,
                Ok(_) => {
                    return Err(ElabError::UniverseExpected);
                },
                Err(e) => {
                    return Err(e);
                },
            };
            let parameter = match get_value(&mut **parameter_type, Ghost(ctx)) {
                Ok(v) => v,
                Err(e) => {
                    return Err(e);
                },
            };
            let frame = Tp { inner: parameter, is_propositional: parameter_universe == Universe::Prop };
            let inner_stack = bindings.add_value(&frame);
            proof {
                assert(context(inner_stack) =~= ctx.push(frame@));
            }
            let return_universe = match get_type(&mut **return_type, inner_stack) {
                Ok(Value::Universe(u)) => u,
                Ok(_) => {
                    return Err(ElabError::UniverseExpected);
                },
                Err(e) => {
                    return Err(e);
                },
            };
            Ok(
                Tp {
                    inner: Value::Universe(pi_universe(parameter_universe, return_universe)),
                    is_propositional: false,
                },
            )
        },
        LoweredExpr::Application { left, right, .. } => {
            let left_type = match get_type(&mut **left, bindings) {
                Ok(t) => t,
                Err(e) => {
                    return Err(e);
                },
            };
            match left_type {
                Value::PiType { parameter_type, inner, is_propositional } => {
                    let right_type = match get_type(&mut **right, bindings) {
                        Ok(t) => t,
                        Err(e) => {
                            return Err(e);
                        },
                    };
                    if *parameter_type != right_type {
                        return Err(ElabError::TypeMismatch);
                    }
                    let argument = match get_value(&mut **right, Ghost(ctx)) {
                        Ok(v) => v,
                        Err(e) => {
                            return Err(e);
                        },
                    };
                    match inner.substitute(argument, NORMALIZE_FUEL) {
                        Ok(t) => Ok(Tp { inner: t, is_propositional }),
                        Err(e) => Err(ElabError::Normalize(e)),
                    }
                },
                _ => Err(ElabError::PiExpected),
            }
        },
        LoweredExpr::Binding { level, .. } => match bindings.lookup(*level) {
            Some(t) => Ok(t.clone()),
            None => Err(ElabError::UnboundIndex),
        },
        LoweredExpr::External { vtp, .. } => Ok(
            Tp { inner: vtp.type_of.clone(), is_propositional: vtp.is_propositional },
        ),
    }
}


/// What a call of `get_type` may do: return the type of `before` in `ctx`,
/// keep the tree's shape and the consistency of its slots, fill the slot on
/// success, and change nothing where the slot was already filled.
pub open spec fn type_call(
    before: LoweredExpr,
    after: LoweredExpr,
    ctx: Seq<TpModel>,
    r: Result<Term, ElabError>,
) -> bool {
    &&& r == type_part(typing(skeleton(before), ctx))
    &&& skeleton(after) == skeleton(before)
    &&& consistent(after, ctx)
    &&& (r is Ok ==> typed(after))
    &&& (typed(before) ==> after == before)
}

/// Memoization: a second call of `get_type` on the tree that a successful
/// first call left returns the same type and leaves the tree as it is.
pub proof fn lemma_type_memo(
    e0: LoweredExpr,
    e1: LoweredExpr,
    e2: LoweredExpr,
    ctx: Seq<TpModel>,
    r1: Result<Term, ElabError>,
    r2: Result<Term, ElabError>,
)
    requires
        type_call(e0, e1, ctx, r1),
        type_call(e1, e2, ctx, r2),
    ensures
        r2 == r1,
        r1 is Ok ==> e2 == e1,
{
}

/// What a call of `get_value` may do, on a tree typed in `ctx`.
pub open spec fn value_call(
    before: LoweredExpr,
    after: LoweredExpr,
    ctx: Seq<TpModel>,
    r: Result<Term, ElabError>,
) -> bool {
    &&& r == valuing(skeleton(before), ctx)
    &&& skeleton(after) == skeleton(before)
    &&& consistent(after, ctx)
    &&& typed(after)
    &&& (r is Ok ==> store(after).value is Some)
    &&& (store(before).value is Some ==> after == before)
}

/// Memoization: a second call of `get_value` on the tree that a successful
/// first call left returns the same value and leaves the tree as it is.
pub proof fn lemma_value_memo(
    e0: LoweredExpr,
    e1: LoweredExpr,
    e2: LoweredExpr,
    ctx: Seq<TpModel>,
    r1: Result<Term, ElabError>,
    r2: Result<Term, ElabError>,
)
    requires
        value_call(e0, e1, ctx, r1),
        value_call(e1, e2, ctx, r2),
    ensures
        r2 == r1,
        r1 is Ok ==> e2 == e1,
{
}

/// The lowered universe literal of the given level.
pub open spec fn universe_literal(level: usize) -> Core {
    Core::External {
        value: Term::Universe(Universe::Type { level }),
        type_of: Term::Universe(Universe::Type { level: (level + 1) as usize }),
        is_propositional: false,
    }
}

/// Universe rule: `Fn(x : Set_a) -> Set_b` has type `Set_(max(a, b) + 1)`.
pub proof fn lemma_universe_rule(a: usize, b: usize)
    requires
        a < usize::MAX,
        b < usize::MAX,
    ensures
        typing(
            Core::PiType {
                parameter_type: Box::new(universe_literal(a)),
                return_type: Box::new(universe_literal(b)),
            },
            Seq::empty(),
        ) == Ok::<TpModel, ElabError>(
            TpModel {
                inner: Term::Universe(
                    Universe::Type { level: (if a >= b { a } else { b } + 1) as usize },
                ),
                is_propositional: false,
            },
        ),
{
    let empty = Seq::<TpModel>::empty();
    assert(valuing(universe_literal(a), empty) == Ok::<Term, ElabError>(
        Term::Universe(Universe::Type { level: a }),
    ));
    assert(typing(
        universe_literal(b),
        empty.push(binder_frame(universe_literal(a), empty)),
    ) == Ok::<TpModel, ElabError>(
        TpModel {
            inner: Term::Universe(Universe::Type { level: (b + 1) as usize }),
            is_propositional: false,
        },
    ));
}

/// Propositional collapse: two closed terms of one dependent function type
/// that lives in `Prop` both have the value `Witness`.
pub proof fn lemma_propositional_collapse(p: Core, q: Core)
    requires
        typing(p, Seq::empty()) is Ok,
        typing(q, Seq::empty()) == typing(p, Seq::empty()),
        typing(p, Seq::empty())->Ok_0.inner is PiType,
        typing(p, Seq::empty())->Ok_0.is_propositional,
    ensures
        valuing(p, Seq::empty()) == Ok::<Term, ElabError>(Term::Witness),
        valuing(q, Seq::empty()) == Ok::<Term, ElabError>(Term::Witness),
{
}


/// Beta-reduction in evaluation: where neither the application nor the
/// lambda has a type in `Prop`, the value of a lambda applied to an argument
/// is the value of the argument substituted into the normal form of the value
/// of the body.
pub proof fn lemma_value_of_beta(parameter_type: Core, body: Core, argument: Core, ctx: Seq<TpModel>)
    requires
        typing(
            Core::Application {
                left: Box::new(Core::Lambda { parameter_type: Box::new(parameter_type), inner: Box::new(body) }),
                right: Box::new(argument),
            },
            ctx,
        ) matches Ok(t) && !t.is_propositional,
        typing(
            Core::Lambda { parameter_type: Box::new(parameter_type), inner: Box::new(body) },
            ctx,
        ) matches Ok(t) && !t.is_propositional,
        valuing(body, ctx.push(binder_frame(parameter_type, ctx))) is Ok,
        valuing(argument, ctx) is Ok,
    ensures
        valuing(
            Core::Application {
                left: Box::new(Core::Lambda { parameter_type: Box::new(parameter_type), inner: Box::new(body) }),
                right: Box::new(argument),
            },
            ctx,
        ) == normalize_part(
            match normal_form(
                valuing(body, ctx.push(binder_frame(parameter_type, ctx)))->Ok_0,
                NORMALIZE_FUEL as nat,
            ) {
                Ok(b) => substitution(
                    b,
                    valuing(argument, ctx)->Ok_0,
                    (NORMALIZE_FUEL - 1) as nat,
                ),
                Err(e) => Err(e),
            },
        ),
{
    let lambda = Core::Lambda { parameter_type: Box::new(parameter_type), inner: Box::new(body) };
    let b = valuing(body, ctx.push(binder_frame(parameter_type, ctx)))->Ok_0;
    let v = valuing(argument, ctx)->Ok_0;
    assert(valuing(lambda, ctx) == Ok::<Term, ElabError>(Term::Lambda { inner: Box::new(b) }));
    lemma_beta_reduction(b, v, (NORMALIZE_FUEL - 1) as nat);
}

} // verus!
