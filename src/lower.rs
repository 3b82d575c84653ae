use vstd::prelude::*;

use crate::annotate::{fresh, skeleton, Core, LoweredExpr, Vtp, VtpStore};
use crate::ast::{BindingData, Expr, ExprData, TypedBinding, TypedBindingData};
use crate::value::{Term, Universe, Value};

verus! {

/// Why a surface expression cannot be lowered.
#[derive(Clone, Copy, PartialEq, Eq, Structural, Debug)]
pub enum LowerError {
    /// A name that no enclosing binder introduces.
    UnboundName,
    /// A parameter without an ascribed type.
    MissingAscription,
    /// A block, a path of several segments, or a return type on a lowercase `fn`.
    Unsupported,
    /// A binder depth or a universe level past the range of `usize`.
    LevelOverflow,
}

/// The names in scope, each with the absolute level of its binder.
pub type Scope = Seq<(Seq<char>, nat)>;

/// The level bound to `name`: the latest entry for it wins.
pub open spec fn resolve(scope: Scope, name: Seq<char>) -> Option<nat>
    decreases scope.len(),
{
    if scope.len() == 0 {
        None
    } else if scope.last().0 == name {
        Some(scope.last().1)
    } else {
        resolve(scope.drop_last(), name)
    }
}

/// The scope held by a name list.
pub open spec fn scope_of(names: Seq<(String, usize)>) -> Scope {
    names.map_values(|entry: (String, usize)| (entry.0@, entry.1 as nat))
}

/// `scope` with the name of `binding`, if it has one, bound to `level`.
pub open spec fn bind(scope: Scope, binding: BindingData, level: nat) -> Scope {
    match binding {
        BindingData::Identifier { binding_name } => scope.push((binding_name@, level)),
        BindingData::Underscore => scope,
    }
}

/// The parameters of a `fn` or `Fn` expression.
pub open spec fn parameters(e: Expr) -> Seq<TypedBinding> {
    match e.data {
        ExprData::FnLowercase { args, .. } => args@,
        ExprData::FnUppercase { args, .. } => args@,
        _ => Seq::empty(),
    }
}

/// `body` under one binder per parameter type, outermost first.
pub open spec fn fold_binders(parameter_types: Seq<Core>, body: Core, upper: bool) -> Core
    decreases parameter_types.len(),
{
    if parameter_types.len() == 0 {
        body
    } else if upper {
        Core::PiType {
            parameter_type: Box::new(parameter_types[0]),
            return_type: Box::new(fold_binders(parameter_types.drop_first(), body, upper)),
        }
    } else {
        Core::Lambda {
            parameter_type: Box::new(parameter_types[0]),
            inner: Box::new(fold_binders(parameter_types.drop_first(), body, upper)),
        }
    }
}

/// `r` with binders for `parameter_types` put around the term it carries.
pub open spec fn wrap_binders(
    parameter_types: Seq<Core>,
    r: Result<Core, LowerError>,
    upper: bool,
) -> Result<Core, LowerError> {
    match r {
        Ok(body) => Ok(fold_binders(parameter_types, body, upper)),
        Err(e) => Err(e),
    }
}

/// The lowering of `e` at binder depth `level` in `scope`.
pub open spec fn lowering(e: Expr, scope: Scope, level: nat) -> Result<Core, LowerError>
    decreases e, 1nat, 0nat,
{
    match e.data {
        ExprData::FnLowercase { .. } => lower_binders(e, 0, scope, level),
        ExprData::FnUppercase { .. } => lower_binders(e, 0, scope, level),
        ExprData::Block { .. } => Err(LowerError::Unsupported),
        ExprData::Grouping { inner } => lowering(*inner, scope, level),
        ExprData::Application { left, right } => match lowering(*left, scope, level) {
            Ok(l) => match lowering(*right, scope, level) {
                Ok(r) => Ok(Core::Application { left: Box::new(l), right: Box::new(r) }),
                Err(x) => Err(x),
            },
            Err(x) => Err(x),
        },
        ExprData::Value { path } => if path@.len() != 1 {
            Err(LowerError::Unsupported)
        } else {
            match resolve(scope, path@[0]@) {
                Some(bound) => Ok(Core::Binding { level: (level - bound - 1) as nat }),
                None => Err(LowerError::UnboundName),
            }
        },
        ExprData::Type { level: universe_level } => if universe_level == usize::MAX {
            Err(LowerError::LevelOverflow)
        } else {
            Ok(
                Core::External {
                    value: Term::Universe(Universe::Type { level: universe_level }),
                    type_of: Term::Universe(Universe::Type { level: (universe_level + 1) as usize }),
                    is_propositional: false,
                },
            )
        },
        ExprData::Prop => Ok(
            Core::External {
                value: Term::Universe(Universe::Prop),
                type_of: Term::Universe(Universe::Type { level: 0 }),
                is_propositional: false,
            },
        ),
    }
}

/// The lowering of the parameters of the `fn` or `Fn` expression `e` from the
/// `index`-th on, around its body.
pub open spec fn lower_binders(e: Expr, index: nat, scope: Scope, level: nat) -> Result<
    Core,
    LowerError,
>
    decreases e, 0nat, parameters(e).len() - index,
{
    let upper = e.data is FnUppercase;
    if index >= parameters(e).len() {
        match e.data {
            ExprData::FnLowercase { return_type, body, .. } => if return_type is Some {
                Err(LowerError::Unsupported)
            } else {
                lowering(*body, scope, level)
            },
            ExprData::FnUppercase { return_type, .. } => lowering(*return_type, scope, level),
            _ => Err(LowerError::Unsupported),
        }
    } else {
        let parameter = parameters(e)[index as int].data;
        match parameter.ascribed_type {
            None => Err(LowerError::MissingAscription),
            Some(t) => match lowering(t, scope, level) {
                Ok(parameter_type) => if level + 1 > usize::MAX {
                    Err(LowerError::LevelOverflow)
                } else {
                    wrap_binders(
                        seq![parameter_type],
                        lower_binders(
                            e,
                            index + 1,
                            bind(scope, parameter.binding.data, level),
                            level + 1,
                        ),
                        upper,
                    )
                },
                Err(x) => Err(x),
            },
        }
    }
}


/// The skeletons of a sequence of lowered expressions.
pub open spec fn skeletons(s: Seq<LoweredExpr>) -> Seq<Core> {
    s.map_values(|l: LoweredExpr| skeleton(l))
}

/// The model of a lowering outcome.
pub open spec fn lowered(r: Result<LoweredExpr, LowerError>) -> Result<Core, LowerError> {
    match r {
        Ok(l) => Ok(skeleton(l)),
        Err(x) => Err(x),
    }
}

/// Binders for `outer` around binders for `inner` are binders for both.
pub proof fn lemma_fold_binders_push(outer: Seq<Core>, parameter_type: Core, body: Core, upper: bool)
    ensures
        fold_binders(outer, fold_binders(seq![parameter_type], body, upper), upper)
            == fold_binders(outer.push(parameter_type), body, upper),
    decreases outer.len(),
{
    assert(seq![parameter_type].drop_first() =~= Seq::<Core>::empty());
    if outer.len() == 0 {
        assert(outer.push(parameter_type) =~= seq![parameter_type]);
    } else {
        assert(outer.push(parameter_type)[0] == outer[0]);
        assert(outer.push(parameter_type).drop_first() =~= outer.drop_first().push(parameter_type));
        lemma_fold_binders_push(outer.drop_first(), parameter_type, body, upper);
    }
}

/// The level bound to `name` in `bindings`.
fn lookup_name(bindings: &Vec<(String, usize)>, name: &String) -> (r: Option<usize>)
    ensures
        r matches Some(b) ==> resolve(scope_of(bindings@), name@) == Some(b as nat) && exists|j: int|
            0 <= j < bindings@.len() && bindings@[j].1 == b,
        r is None ==> resolve(scope_of(bindings@), name@) is None,
{
    let mut j: usize = bindings.len();
    assert(bindings@.subrange(0, j as int) =~= bindings@);
    while j > 0
        invariant
            j <= bindings@.len(),
            resolve(scope_of(bindings@), name@) == resolve(
                scope_of(bindings@.subrange(0, j as int)),
                name@,
            ),
        decreases j,
    {
        let ghost prefix = scope_of(bindings@.subrange(0, j as int));
        assert(prefix.drop_last() =~= scope_of(bindings@.subrange(0, j - 1)));
        assert(prefix.last() == (bindings@[j - 1].0@, bindings@[j - 1].1 as nat));
        j -= 1;
        if bindings[j].0 == *name {
            return Some(bindings[j].1);
        }
    }
    assert(scope_of(bindings@.subrange(0, 0)).len() == 0);
    None
}

/// The parameters of `e`, lowered in order with each name bound as it comes;
/// also the binder depth after them.
fn lower_parameters(
    args: Vec<TypedBinding>,
    bindings: &mut Vec<(String, usize)>,
    level: usize,
    upper: bool,
    Ghost(e): Ghost<Expr>,
) -> (r: Result<(Vec<LoweredExpr>, usize), LowerError>)
    requires
        args@ == parameters(e),
        upper == e.data is FnUppercase,
        e.data is FnUppercase || e.data is FnLowercase,
        forall|j: int| 0 <= j < old(bindings)@.len() ==> old(bindings)@[j].1 < level,
    ensures
        r is Err ==> final(bindings)@ == old(bindings)@,
        r matches Err(x) ==> lower_binders(e, 0, scope_of(old(bindings)@), level as nat) == Err::<
            Core,
            LowerError,
        >(x),
        r matches Ok((ps, inner_level)) ==> {
            &&& inner_level == level + args@.len()
            &&& final(bindings)@.len() >= old(bindings)@.len()
            &&& final(bindings)@.subrange(0, old(bindings)@.len() as int) == old(bindings)@
            &&& forall|j: int|
                0 <= j < final(bindings)@.len() ==> final(bindings)@[j].1 < inner_level
            &&& forall|j: int| 0 <= j < ps@.len() ==> fresh(#[trigger] ps@[j])
            &&& lower_binders(e, 0, scope_of(old(bindings)@), level as nat) == wrap_binders(
                skeletons(ps@),
                lower_binders(e, args@.len(), scope_of(final(bindings)@), inner_level as nat),
                upper,
            )
        },
    decreases e, 0nat,
{
    let ghost n = args@.len();
    let ghost old_bindings = bindings@;
    let old_len = bindings.len();
    let mut rest = args;
    let mut ps: Vec<LoweredExpr> = Vec::new();
    let mut current = level;
    assert(bindings@.subrange(0, old_len as int) =~= old_bindings);
    assert(skeletons(ps@) =~= Seq::<Core>::empty());
    while rest.len() > 0
        invariant
            ps@.len() + rest@.len() == n,
            n == parameters(e).len(),
            rest@ == parameters(e).subrange(ps@.len() as int, n as int),
            current == level + ps@.len(),
            upper == e.data is FnUppercase,
            old_len == old_bindings.len(),
            old_bindings == old(bindings)@,
            bindings@.len() >= old_len,
            bindings@.subrange(0, old_len as int) == old_bindings,
            forall|j: int| 0 <= j < bindings@.len() ==> bindings@[j].1 < current,
            forall|j: int| 0 <= j < ps@.len() ==> fresh(#[trigger] ps@[j]),
            lower_binders(e, 0, scope_of(old_bindings), level as nat) == wrap_binders(
                skeletons(ps@),
                lower_binders(e, ps@.len() as nat, scope_of(bindings@), current as nat),
                upper,
            ),
        decreases rest@.len(),
    {
        let ghost k = ps@.len() as int;
        let ghost scope = scope_of(bindings@);
        let arg = rest.remove(0);
        assert(arg == parameters(e)[k]);
        let TypedBindingData { binding, ascribed_type } = arg.data;
        match ascribed_type {
            None => {
                bindings.truncate(old_len);
                return Err(LowerError::MissingAscription);
            },
            Some(t) => {
                proof {
                    broadcast use vstd::std_specs::vec::axiom_vec_index_decreases;

                    match e.data {
                        ExprData::FnLowercase { args: all, .. } => {
                            assert(decreases_to!(e => e.data));
                            assert(decreases_to!(e.data => all));
                            assert(decreases_to!(all => all[k]));
                        },
                        ExprData::FnUppercase { args: all, .. } => {
                            assert(decreases_to!(e => e.data));
                            assert(decreases_to!(e.data => all));
                            assert(decreases_to!(all => all[k]));
                        },
                        _ => {},
                    }
                    assert(decreases_to!(arg => arg.data));
                    assert(decreases_to!(arg.data => arg.data.ascribed_type));
                    assert(decreases_to!(arg.data.ascribed_type => arg.data.ascribed_type->0));
                }
                match lower_expr(t, bindings, current) {
                    Err(x) => {
                        bindings.truncate(old_len);
                        return Err(x);
                    },
                    Ok(parameter_type) => {
                        if current == usize::MAX {
                            bindings.truncate(old_len);
                            return Err(LowerError::LevelOverflow);
                        }
                        let ghost pt = skeleton(parameter_type);
                        let ghost before = skeletons(ps@);
                        ps.push(parameter_type);
                        match binding.data {
                            BindingData::Identifier { binding_name } => {
                                bindings.push((binding_name, current));
                            },
                            BindingData::Underscore => {},
                        }
                        current = current + 1;
                        proof {
                            assert(scope_of(bindings@) =~= bind(
                                scope,
                                parameters(e)[k].data.binding.data,
                                (current - 1) as nat,
                            ));
                            assert(skeletons(ps@) =~= before.push(pt));
                            match lower_binders(
                                e,
                                (k + 1) as nat,
                                scope_of(bindings@),
                                current as nat,
                            ) {
                                Ok(body) => lemma_fold_binders_push(before, pt, body, upper),
                                Err(_) => {},
                            }
                            assert(bindings@.subrange(0, old_len as int) =~= old_bindings);
                        }
                    },
                }
            },
        }
    }
    Ok((ps, current))
}

/// Binders for `parameter_types`, outermost first, around `body`.
fn fold_parameters(parameter_types: Vec<LoweredExpr>, body: LoweredExpr, upper: bool) -> (r:
    LoweredExpr)
    requires
        forall|j: int| 0 <= j < parameter_types@.len() ==> fresh(#[trigger] parameter_types@[j]),
        fresh(body),
    ensures
        skeleton(r) == fold_binders(skeletons(parameter_types@), skeleton(body), upper),
        fresh(r),
{
    let ghost all = skeletons(parameter_types@);
    let ghost n = all.len();
    let mut rest = parameter_types;
    let mut out = body;
    assert(all.subrange(n as int, n as int) =~= Seq::<Core>::empty());
    while rest.len() > 0
        invariant
            rest@.len() <= n,
            n == all.len(),
            rest@ == parameter_types@.subrange(0, rest@.len() as int),
            all == skeletons(parameter_types@),
            skeleton(out) == fold_binders(all.subrange(rest@.len() as int, n as int), skeleton(body), upper),
            fresh(out),
            forall|j: int| 0 <= j < parameter_types@.len() ==> fresh(#[trigger] parameter_types@[j]),
        decreases rest@.len(),
    {
        let ghost j = rest@.len() - 1;
        let parameter_type = match rest.pop() {
            Some(p) => p,
            None => vstd::pervasive::unreached(),
        };
        assert(parameter_type == parameter_types@[j]);
        assert(all.subrange(j, n as int).drop_first() =~= all.subrange(j + 1, n as int));
        out = if upper {
            LoweredExpr::PiType {
                parameter_type: Box::new(parameter_type),
                return_type: Box::new(out),
                vtp_store: VtpStore::new(),
            }
        } else {
            LoweredExpr::Lambda {
                parameter_type: Box::new(parameter_type),
                inner: Box::new(out),
                vtp_store: VtpStore::new(),
            }
        };
    }
    assert(all.subrange(0, n as int) =~= all);
    out
}

/// Lowers `expr` at binder depth `level`, resolving names through `bindings`
/// (each name with the absolute level of its binder). `bindings` is left as it
/// was.
pub fn lower_expr(expr: Expr, bindings: &mut Vec<(String, usize)>, level: usize) -> (r: Result<
    LoweredExpr,
    LowerError,
>)
    requires
        forall|j: int| 0 <= j < old(bindings)@.len() ==> old(bindings)@[j].1 < level,
    ensures
        final(bindings)@ == old(bindings)@,
        lowered(r) == lowering(expr, scope_of(old(bindings)@), level as nat),
        r matches Ok(l) ==> fresh(l),
    decreases expr, 1nat,
{
    let ghost e = expr;
    match expr.data {
        ExprData::FnLowercase { args, return_type, body } => {
            let old_len = bindings.len();
            match lower_parameters(args, bindings, level, false, Ghost(e)) {
                Err(x) => Err(x),
                Ok((parameter_types, inner_level)) => {
                    let body_result = if return_type.is_some() {
                        Err(LowerError::Unsupported)
                    } else {
                        lower_expr(*body, bindings, inner_level)
                    };
                    bindings.truncate(old_len);
                    match body_result {
                        Ok(b) => Ok(fold_parameters(parameter_types, b, false)),
                        Err(x) => Err(x),
                    }
                },
            }
        },
        ExprData::FnUppercase { args, return_type } => {
            let old_len = bindings.len();
            match lower_parameters(args, bindings, level, true, Ghost(e)) {
                Err(x) => Err(x),
                Ok((parameter_types, inner_level)) => {
                    let body_result = lower_expr(*return_type, bindings, inner_level);
                    bindings.truncate(old_len);
                    match body_result {
                        Ok(b) => Ok(fold_parameters(parameter_types, b, true)),
                        Err(x) => Err(x),
                    }
                },
            }
        },
        ExprData::Block { .. } => Err(LowerError::Unsupported),
        ExprData::Grouping { inner } => lower_expr(*inner, bindings, level),
        ExprData::Application { left, right } => {
            let l = match lower_expr(*left, bindings, level) {
                Ok(l) => l,
                Err(x) => {
                    return Err(x);
                },
            };
            let r = match lower_expr(*right, bindings, level) {
                Ok(r) => r,
                Err(x) => {
                    return Err(x);
                },
            };
            Ok(
                LoweredExpr::Application {
                    left: Box::new(l),
                    right: Box::new(r),
                    vtp_store: VtpStore::new(),
                },
            )
        },
        ExprData::Value { path } => {
            if path.len() != 1 {
                return Err(LowerError::Unsupported);
            }
            match lookup_name(bindings, &path[0]) {
                Some(referenced_level) => Ok(
                    LoweredExpr::Binding {
                        level: level - referenced_level - 1,
                        vtp_store: VtpStore::new(),
                    },
                ),
                None => Err(LowerError::UnboundName),
            }
        },
        ExprData::Type { level: universe_level } => {
            if universe_level == usize::MAX {
                return Err(LowerError::LevelOverflow);
            }
            Ok(
                LoweredExpr::External {
                    vtp: Vtp {
                        value: Value::Universe(Universe::Type { level: universe_level }),
                        type_of: Value::Universe(Universe::Type { level: universe_level + 1 }),
                        is_propositional: false,
                    },
                    vtp_store: VtpStore::new(),
                },
            )
        },
        ExprData::Prop => Ok(
            LoweredExpr::External {
                vtp: Vtp {
                    value: Value::Universe(Universe::Prop),
                    type_of: Value::Universe(Universe::Type { level: 0 }),
                    is_propositional: false,
                },
                vtp_store: VtpStore::new(),
            },
        ),
    }
}

} // verus!
