use vstd::prelude::*;

verus! {

/// A universe: `Prop`, or a level of the predicative hierarchy.
#[derive(Clone, Copy, PartialEq, Eq, Structural, Debug)]
pub enum Universe {
    Prop,
    Type { level: usize },
}

/// Handle of a host-supplied primitive. Two handles name the same primitive
/// exactly when their identifiers agree.
#[derive(Clone, Copy, PartialEq, Eq, Structural, Debug)]
pub struct Intrinsic {
    pub id: u64,
}

/// Hands out intrinsic handles, each different from every handle it handed
/// out before.
pub struct IntrinsicMinter {
    next: u64,
}

impl IntrinsicMinter {
    /// The number of handles handed out so far; they are `0` to `issued - 1`.
    pub closed spec fn issued(self) -> nat {
        self.next as nat
    }

    /// A minter that has handed out nothing.
    pub fn new() -> (r: IntrinsicMinter)
        ensures
            r.issued() == 0,
    {
        IntrinsicMinter { next: 0 }
    }

    /// A fresh handle: its identifier is the number handed out before, so it
    /// differs from each of them. `None` once every identifier is used.
    pub fn mint(&mut self) -> (r: Option<Intrinsic>)
        ensures
            r matches Some(h) ==> h.id as nat == old(self).issued() && final(self).issued()
                == old(self).issued() + 1,
            r is None <==> old(self).issued() == u64::MAX as nat,
            r is None ==> final(self).issued() == old(self).issued(),
    {
        if self.next == u64::MAX {
            return None;
        }
        let h = Intrinsic { id: self.next };
        self.next = self.next + 1;
        Some(h)
    }
}

/// A term in normal form, with bound variables as de Bruijn indices.
#[derive(Debug)]
pub enum Value {
    Universe(Universe),
    Intrinsic { head: Intrinsic, arguments: Vec<Value> },
    Binding { level: usize },
    Lambda { inner: Box<Value> },
    PiType { parameter_type: Box<Value>, inner: Box<Value>, is_propositional: bool },
    Witness,
    Application { left: Box<Value>, right: Box<Value> },
}

/// The mathematical model of a `Value`.
pub enum Term {
    Universe(Universe),
    Intrinsic { head: Intrinsic, arguments: Seq<Term> },
    Binding { level: nat },
    Lambda { inner: Box<Term> },
    PiType { parameter_type: Box<Term>, inner: Box<Term>, is_propositional: bool },
    Witness,
    Application { left: Box<Term>, right: Box<Term> },
}

pub open spec fn term_of(v: Value) -> Term
    decreases v,
{
    match v {
        Value::Universe(u) => Term::Universe(u),
        Value::Intrinsic { head, arguments } => {
            Term::Intrinsic { head, arguments: terms_of(arguments@) }
        },
        Value::Binding { level } => Term::Binding { level: level as nat },
        Value::Lambda { inner } => Term::Lambda { inner: Box::new(term_of(*inner)) },
        Value::PiType { parameter_type, inner, is_propositional } => Term::PiType {
            parameter_type: Box::new(term_of(*parameter_type)),
            inner: Box::new(term_of(*inner)),
            is_propositional,
        },
        Value::Witness => Term::Witness,
        Value::Application { left, right } => Term::Application {
            left: Box::new(term_of(*left)),
            right: Box::new(term_of(*right)),
        },
    }
}

pub open spec fn terms_of(s: Seq<Value>) -> Seq<Term>
    decreases s,
{
    Seq::new(s.len(), |i: int| if 0 <= i < s.len() { term_of(s[i]) } else { Term::Witness })
}

impl View for Value {
    type V = Term;

    open spec fn view(&self) -> Term {
        term_of(*self)
    }
}


/// Every de Bruijn index of `t` is representable as a `usize`.
pub open spec fn fits(t: Term) -> bool
    decreases t,
{
    match t {
        Term::Intrinsic { arguments, .. } => forall|i: int|
            0 <= i < arguments.len() ==> fits(#[trigger] arguments[i]),
        Term::Binding { level } => level <= usize::MAX,
        Term::Lambda { inner } => fits(*inner),
        Term::PiType { parameter_type, inner, .. } => fits(*parameter_type) && fits(*inner),
        Term::Application { left, right } => fits(*left) && fits(*right),
        _ => true,
    }
}

/// `t` with `amount` added to every de Bruijn index in it.
pub open spec fn shift(t: Term, amount: nat) -> Term
    decreases t,
{
    match t {
        Term::Intrinsic { head, arguments } => Term::Intrinsic {
            head,
            arguments: Seq::new(
                arguments.len(),
                |i: int|
                    if 0 <= i < arguments.len() {
                        shift(arguments[i], amount)
                    } else {
                        Term::Witness
                    },
            ),
        },
        Term::Binding { level } => Term::Binding { level: level + amount },
        Term::Lambda { inner } => Term::Lambda { inner: Box::new(shift(*inner, amount)) },
        Term::PiType { parameter_type, inner, is_propositional } => Term::PiType {
            parameter_type: Box::new(shift(*parameter_type, amount)),
            inner: Box::new(shift(*inner, amount)),
            is_propositional,
        },
        Term::Application { left, right } => Term::Application {
            left: Box::new(shift(*left, amount)),
            right: Box::new(shift(*right, amount)),
        },
        _ => t,
    }
}


impl Clone for Value {
    #[verifier::loop_isolation(false)]
    fn clone(&self) -> (r: Value)
        ensures
            r@ == self@,
        decreases self,
    {
        match self {
            Value::Universe(u) => Value::Universe(*u),
            Value::Intrinsic { head, arguments } => {
                let mut out: Vec<Value> = Vec::new();
                let mut i: usize = 0;
                while i < arguments.len()
                    invariant
                        i <= arguments.len(),
                        out@.len() == i,
                        forall|j: int| 0 <= j < i ==> (#[trigger] out@[j])@ == arguments@[j]@,
                    decreases arguments.len() - i,
                {
                    proof {
                        broadcast use vstd::std_specs::vec::axiom_vec_index_decreases;
                        assert(decreases_to!(*self => (*self)->arguments));
                        assert(decreases_to!(*arguments => arguments[i as int]));
                    }
                    out.push(arguments[i].clone());
                    i += 1;
                }
                assert(terms_of(out@) =~= terms_of(arguments@));
                Value::Intrinsic { head: *head, arguments: out }
            },
            Value::Binding { level } => Value::Binding { level: *level },
            Value::Lambda { inner } => Value::Lambda { inner: Box::new((**inner).clone()) },
            Value::PiType { parameter_type, inner, is_propositional } => Value::PiType {
                parameter_type: Box::new((**parameter_type).clone()),
                inner: Box::new((**inner).clone()),
                is_propositional: *is_propositional,
            },
            Value::Witness => Value::Witness,
            Value::Application { left, right } => Value::Application {
                left: Box::new((**left).clone()),
                right: Box::new((**right).clone()),
            },
        }
    }
}

impl Value {
    /// Adds `amount` to every de Bruijn index; `None` where an index would
    /// leave the range of `usize`.
    #[verifier::loop_isolation(false)]
    pub fn add_to_bindings(&self, amount: usize) -> (r: Option<Value>)
        ensures
            r is Some <==> fits(shift(self@, amount as nat)),
            r matches Some(v) ==> v@ == shift(self@, amount as nat),
        decreases self,
    {
        match self {
            Value::Intrinsic { head, arguments } => {
                let ghost shifted = shift(self@, amount as nat);
                let mut out: Vec<Value> = Vec::new();
                let mut i: usize = 0;
                while i < arguments.len()
                    invariant
                        i <= arguments.len(),
                        out@.len() == i,
                        shifted == shift(self@, amount as nat),
                        self@ == (Term::Intrinsic { head: *head, arguments: terms_of(arguments@) }),
                        forall|j: int|
                            0 <= j < i ==> (#[trigger] out@[j])@ == shift(
                                arguments@[j]@,
                                amount as nat,
                            ),
                        forall|j: int|
                            0 <= j < i ==> fits(shift(#[trigger] arguments@[j]@, amount as nat)),
                    decreases arguments.len() - i,
                {
                    proof {
                        broadcast use vstd::std_specs::vec::axiom_vec_index_decreases;
                        assert(decreases_to!(*self => (*self)->arguments));
                        assert(decreases_to!(*arguments => arguments[i as int]));
                    }
                    match arguments[i].add_to_bindings(amount) {
                        Some(v) => out.push(v),
                        None => {
                            assert(shifted->arguments[i as int] == shift(
                                arguments@[i as int]@,
                                amount as nat,
                            ));
                            return None;
                        },
                    }
                    i += 1;
                }
                assert(terms_of(out@) =~= shifted->arguments);
                Some(Value::Intrinsic { head: *head, arguments: out })
            },
            Value::Binding { level } => {
                if *level <= usize::MAX - amount {
                    Some(Value::Binding { level: *level + amount })
                } else {
                    None
                }
            },
            Value::Lambda { inner } => match inner.add_to_bindings(amount) {
                Some(v) => Some(Value::Lambda { inner: Box::new(v) }),
                None => None,
            },
            Value::PiType { parameter_type, inner, is_propositional } => {
                match parameter_type.add_to_bindings(amount) {
                    Some(p) => match inner.add_to_bindings(amount) {
                        Some(i) => Some(
                            Value::PiType {
                                parameter_type: Box::new(p),
                                inner: Box::new(i),
                                is_propositional: *is_propositional,
                            },
                        ),
                        None => None,
                    },
                    None => None,
                }
            },
            Value::Application { left, right } => match left.add_to_bindings(amount) {
                Some(l) => match right.add_to_bindings(amount) {
                    Some(r) => Some(Value::Application { left: Box::new(l), right: Box::new(r) }),
                    None => None,
                },
                None => None,
            },
            Value::Universe(u) => Some(Value::Universe(*u)),
            Value::Witness => Some(Value::Witness),
        }
    }
}


/// Structural equality of two values, compared through their models.
#[verifier::loop_isolation(false)]
fn same_value(a: &Value, b: &Value) -> (r: bool)
    ensures
        r == (a@ == b@),
    decreases a,
{
    match (a, b) {
        (Value::Universe(u), Value::Universe(w)) => *u == *w,
        (
            Value::Intrinsic { head: head_a, arguments: arguments_a },
            Value::Intrinsic { head: head_b, arguments: arguments_b },
        ) => {
            if *head_a != *head_b || arguments_a.len() != arguments_b.len() {
                proof {
                    if arguments_a.len() != arguments_b.len() {
                        assert(terms_of(arguments_a@).len() != terms_of(arguments_b@).len());
                    }
                }
                return false;
            }
            let mut i: usize = 0;
            while i < arguments_a.len()
                invariant
                    i <= arguments_a.len(),
                    arguments_a.len() == arguments_b.len(),
                    forall|j: int| 0 <= j < i ==> (#[trigger] arguments_a@[j])@ == arguments_b@[j]@,
                decreases arguments_a.len() - i,
            {
                proof {
                    broadcast use vstd::std_specs::vec::axiom_vec_index_decreases;
                    assert(decreases_to!(*a => (*a)->arguments));
                    assert(decreases_to!(*arguments_a => arguments_a[i as int]));
                }
                if !same_value(&arguments_a[i], &arguments_b[i]) {
                    assert(terms_of(arguments_a@)[i as int] != terms_of(arguments_b@)[i as int]);
                    return false;
                }
                i += 1;
            }
            assert(terms_of(arguments_a@) =~= terms_of(arguments_b@));
            true
        },
        (Value::Binding { level: level_a }, Value::Binding { level: level_b }) => *level_a
            == *level_b,
        (Value::Lambda { inner: inner_a }, Value::Lambda { inner: inner_b }) => same_value(
            inner_a,
            inner_b,
        ),
        (
            Value::PiType {
                parameter_type: parameter_a,
                inner: inner_a,
                is_propositional: prop_a,
            },
            Value::PiType {
                parameter_type: parameter_b,
                inner: inner_b,
                is_propositional: prop_b,
            },
        ) => *prop_a == *prop_b && same_value(parameter_a, parameter_b) && same_value(
            inner_a,
            inner_b,
        ),
        (Value::Witness, Value::Witness) => true,
        (
            Value::Application { left: left_a, right: right_a },
            Value::Application { left: left_b, right: right_b },
        ) => same_value(left_a, left_b) && same_value(right_a, right_b),
        _ => false,
    }
}

impl PartialEq for Value {
    fn eq(&self, other: &Value) -> (r: bool) {
        same_value(self, other)
    }
}

impl vstd::std_specs::cmp::PartialEqSpecImpl for Value {
    open spec fn obeys_eq_spec() -> bool {
        true
    }

    open spec fn eq_spec(&self, other: &Value) -> bool {
        self@ == other@
    }
}


/// Why normalization stopped without a normal form.
#[derive(Clone, Copy, PartialEq, Eq, Structural, Debug)]
pub enum NormalizeError {
    /// More nested beta-reductions were needed than the fuel allowed.
    OutOfFuel,
    /// A de Bruijn index left the range of `usize`.
    IndexOverflow,
}

/// Replaces index `index` of `t` by `argument`, shifted by the index it
/// replaces; indices above `index` drop by one, the binder being consumed.
pub open spec fn subst(t: Term, argument: Term, index: nat) -> Term
    decreases t,
{
    match t {
        Term::Intrinsic { head, arguments } => Term::Intrinsic {
            head,
            arguments: Seq::new(
                arguments.len(),
                |i: int|
                    if 0 <= i < arguments.len() {
                        subst(arguments[i], argument, index)
                    } else {
                        Term::Witness
                    },
            ),
        },
        Term::Binding { level } => if level == index {
            shift(argument, level)
        } else if level > index {
            Term::Binding { level: (level - 1) as nat }
        } else {
            t
        },
        Term::Lambda { inner } => Term::Lambda { inner: Box::new(subst(*inner, argument, index + 1)) },
        Term::PiType { parameter_type, inner, is_propositional } => Term::PiType {
            parameter_type: Box::new(subst(*parameter_type, argument, index)),
            inner: Box::new(subst(*inner, argument, index + 1)),
            is_propositional,
        },
        Term::Application { left, right } => Term::Application {
            left: Box::new(subst(*left, argument, index)),
            right: Box::new(subst(*right, argument, index)),
        },
        _ => t,
    }
}

/// The normal form of `t`, where at most `fuel` beta-reductions are nested.
pub open spec fn normal_form(t: Term, fuel: nat) -> Result<Term, NormalizeError>
    decreases fuel, t,
{
    match t {
        Term::Intrinsic { head, arguments } => match normal_forms(arguments, fuel) {
            Ok(normal) => Ok(Term::Intrinsic { head, arguments: normal }),
            Err(e) => Err(e),
        },
        Term::Lambda { inner } => match normal_form(*inner, fuel) {
            Ok(normal) => Ok(Term::Lambda { inner: Box::new(normal) }),
            Err(e) => Err(e),
        },
        Term::PiType { parameter_type, inner, is_propositional } => match normal_form(
            *parameter_type,
            fuel,
        ) {
            Ok(p) => match normal_form(*inner, fuel) {
                Ok(i) => Ok(
                    Term::PiType {
                        parameter_type: Box::new(p),
                        inner: Box::new(i),
                        is_propositional,
                    },
                ),
                Err(e) => Err(e),
            },
            Err(e) => Err(e),
        },
        Term::Application { left, right } => match normal_form(*left, fuel) {
            Ok(Term::Intrinsic { head, arguments }) => match normal_form(*right, fuel) {
                Ok(r) => Ok(Term::Intrinsic { head, arguments: arguments.push(r) }),
                Err(e) => Err(e),
            },
            Ok(Term::Lambda { inner }) => if fuel == 0 {
                Err(NormalizeError::OutOfFuel)
            } else if fits(subst(*inner, *right, 0)) {
                normal_form(subst(*inner, *right, 0), (fuel - 1) as nat)
            } else {
                Err(NormalizeError::IndexOverflow)
            },
            Ok(Term::Witness) => Ok(Term::Witness),
            Ok(l) => match normal_form(*right, fuel) {
                Ok(r) => Ok(Term::Application { left: Box::new(l), right: Box::new(r) }),
                Err(e) => Err(e),
            },
            Err(e) => Err(e),
        },
        _ => Ok(t),
    }
}

/// The normal forms of the terms of `s`, in order; the first failure wins.
pub open spec fn normal_forms(s: Seq<Term>, fuel: nat) -> Result<Seq<Term>, NormalizeError>
    decreases fuel, s,
{
    if s.len() == 0 {
        Ok(Seq::empty())
    } else {
        match normal_form(s[0], fuel) {
            Ok(first) => match normal_forms(s.drop_first(), fuel) {
                Ok(rest) => Ok(seq![first] + rest),
                Err(e) => Err(e),
            },
            Err(e) => Err(e),
        }
    }
}

/// Beta-substitution of `argument` for index 0 of `t`, then normalization.
pub open spec fn substitution(t: Term, argument: Term, fuel: nat) -> Result<Term, NormalizeError> {
    if fits(subst(t, argument, 0)) {
        normal_form(subst(t, argument, 0), fuel)
    } else {
        Err(NormalizeError::IndexOverflow)
    }
}

/// The model of an outcome that carries a value.
pub open spec fn outcome<E>(r: Result<Value, E>) -> Result<Term, E> {
    match r {
        Ok(v) => Ok(v@),
        Err(e) => Err(e),
    }
}


/// Every index of a value's model fits in a `usize`.
pub proof fn lemma_value_fits(v: Value)
    ensures
        fits(v@),
    decreases v,
{
    match v {
        Value::Intrinsic { head, arguments } => {
            assert(v@ == Term::Intrinsic { head, arguments: terms_of(arguments@) });
            assert forall|i: int| 0 <= i < arguments@.len() implies fits(
                #[trigger] terms_of(arguments@)[i],
            ) by {
                broadcast use vstd::std_specs::vec::axiom_vec_index_decreases;

                assert(decreases_to!(v => v->arguments));
                assert(decreases_to!(arguments => arguments[i]));
                lemma_value_fits(arguments[i]);
            }
        },
        Value::Lambda { inner } => lemma_value_fits(*inner),
        Value::PiType { parameter_type, inner, .. } => {
            lemma_value_fits(*parameter_type);
            lemma_value_fits(*inner);
        },
        Value::Application { left, right } => {
            lemma_value_fits(*left);
            lemma_value_fits(*right);
        },
        _ => {},
    }
}

/// Substituting for an index above every index of `t` leaves `t` unchanged.
pub proof fn lemma_subst_beyond(t: Term, argument: Term, index: nat)
    requires
        fits(t),
        index > usize::MAX,
    ensures
        subst(t, argument, index) == t,
    decreases t,
{
    match t {
        Term::Intrinsic { head, arguments } => {
            assert forall|i: int| 0 <= i < arguments.len() implies subst(
                #[trigger] arguments[i],
                argument,
                index,
            ) == arguments[i] by {
                lemma_subst_beyond(arguments[i], argument, index);
            }
            assert(subst(t, argument, index)->arguments =~= arguments);
        },
        Term::Lambda { inner } => lemma_subst_beyond(*inner, argument, index + 1),
        Term::PiType { parameter_type, inner, .. } => {
            lemma_subst_beyond(*parameter_type, argument, index);
            lemma_subst_beyond(*inner, argument, index + 1);
        },
        Term::Application { left, right } => {
            lemma_subst_beyond(*left, argument, index);
            lemma_subst_beyond(*right, argument, index);
        },
        _ => {},
    }
}

impl Value {
    /// Substitutes `argument` for the index `for_index`; `None` where an index
    /// of the result would leave the range of `usize`.
    #[verifier::loop_isolation(false)]
    pub fn substitute_n(self, argument: &Value, for_index: usize) -> (r: Option<Value>)
        ensures
            r is Some <==> fits(subst(self@, argument@, for_index as nat)),
            r matches Some(v) ==> v@ == subst(self@, argument@, for_index as nat),
        decreases self,
    {
        let ghost entry = self;
        let ghost substituted = subst(self@, argument@, for_index as nat);
        match self {
            Value::Intrinsic { head, arguments } => {
                assert(entry@ == Term::Intrinsic { head, arguments: terms_of(arguments@) });
                assert(substituted->arguments.len() == arguments@.len());
                let ghost n = arguments@.len();
                let mut rest = arguments;
                let mut out: Vec<Value> = Vec::new();
                while rest.len() > 0
                    invariant
                        out@.len() + rest@.len() == n,
                        rest@ == entry->arguments@.subrange(out@.len() as int, n as int),
                        forall|j: int|
                            0 <= j < out@.len() ==> (#[trigger] out@[j])@ == subst(
                                entry->arguments@[j]@,
                                argument@,
                                for_index as nat,
                            ),
                    decreases rest@.len(),
                {
                    let ghost k = out@.len() as int;
                    let next = rest.remove(0);
                    proof {
                        broadcast use vstd::std_specs::vec::axiom_vec_index_decreases;

                        assert(decreases_to!(entry => entry->arguments));
                        assert(decreases_to!(entry->arguments => entry->arguments[k]));
                        assert(rest@ == entry->arguments@.subrange(k + 1, n as int));
                    }
                    match next.substitute_n(argument, for_index) {
                        Some(v) => out.push(v),
                        None => {
                            assert(substituted->arguments[k] == subst(
                                entry->arguments@[k]@,
                                argument@,
                                for_index as nat,
                            ));
                            return None;
                        },
                    }
                }
                proof {
                    assert(terms_of(out@) =~= substituted->arguments);
                    assert forall|j: int| 0 <= j < n implies fits(
                        #[trigger] substituted->arguments[j],
                    ) by {
                        lemma_value_fits(out@[j]);
                    }
                }
                Some(Value::Intrinsic { head, arguments: out })
            },
            Value::Binding { level } => {
                if level == for_index {
                    argument.add_to_bindings(level)
                } else if level > for_index {
                    Some(Value::Binding { level: level - 1 })
                } else {
                    Some(Value::Binding { level })
                }
            },
            Value::Lambda { inner } => {
                if for_index == usize::MAX {
                    proof {
                        lemma_value_fits(*inner);
                        lemma_subst_beyond(inner@, argument@, for_index as nat + 1);
                    }
                    Some(Value::Lambda { inner })
                } else {
                    match inner.substitute_n(argument, for_index + 1) {
                        Some(v) => Some(Value::Lambda { inner: Box::new(v) }),
                        None => None,
                    }
                }
            },
            Value::PiType { parameter_type, inner, is_propositional } => {
                match parameter_type.substitute_n(argument, for_index) {
                    Some(p) => {
                        if for_index == usize::MAX {
                            proof {
                                lemma_value_fits(*inner);
                                lemma_subst_beyond(inner@, argument@, for_index as nat + 1);
                            }
                            Some(Value::PiType { parameter_type: Box::new(p), inner, is_propositional })
                        } else {
                            match inner.substitute_n(argument, for_index + 1) {
                                Some(i) => Some(
                                    Value::PiType {
                                        parameter_type: Box::new(p),
                                        inner: Box::new(i),
                                        is_propositional,
                                    },
                                ),
                                None => None,
                            }
                        }
                    },
                    None => None,
                }
            },
            Value::Application { left, right } => match left.substitute_n(argument, for_index) {
                Some(l) => match right.substitute_n(argument, for_index) {
                    Some(r) => Some(Value::Application { left: Box::new(l), right: Box::new(r) }),
                    None => None,
                },
                None => None,
            },
            other => {
                proof {
                    lemma_value_fits(other);
                }
                Some(other)
            },
        }
    }
}


/// `r` with `prefix` put in front of the sequence it carries.
pub open spec fn prepend(prefix: Seq<Term>, r: Result<Seq<Term>, NormalizeError>) -> Result<
    Seq<Term>,
    NormalizeError,
> {
    match r {
        Ok(rest) => Ok(prefix + rest),
        Err(e) => Err(e),
    }
}

impl Value {
    /// Normalizes the value, nesting at most `fuel` beta-reductions.
    #[verifier::loop_isolation(false)]
    pub fn normalize(self, fuel: u64) -> (r: Result<Value, NormalizeError>)
        ensures
            outcome(r) == normal_form(self@, fuel as nat),
        decreases fuel, self,
    {
        let ghost entry = self;
        match self {
            Value::Intrinsic { head, arguments } => {
                let ghost n = arguments@.len();
                let ghost all = terms_of(arguments@);
                assert(entry@ == Term::Intrinsic { head, arguments: all });
                let mut rest = arguments;
                let mut out: Vec<Value> = Vec::new();
                assert(terms_of(out@) + terms_of(rest@) =~= all);
                while rest.len() > 0
                    invariant
                        out@.len() + rest@.len() == n,
                        rest@ == entry->arguments@.subrange(out@.len() as int, n as int),
                        normal_forms(all, fuel as nat) == prepend(
                            terms_of(out@),
                            normal_forms(terms_of(rest@), fuel as nat),
                        ),
                    decreases rest@.len(),
                {
                    let ghost k = out@.len() as int;
                    let ghost before = rest@;
                    let next = rest.remove(0);
                    proof {
                        broadcast use vstd::std_specs::vec::axiom_vec_index_decreases;

                        assert(decreases_to!(entry => entry->arguments));
                        assert(decreases_to!(entry->arguments => entry->arguments[k]));
                        assert(rest@ == entry->arguments@.subrange(k + 1, n as int));
                        assert(terms_of(before)[0] == next@);
                        assert(terms_of(before).drop_first() =~= terms_of(rest@));
                    }
                    match next.normalize(fuel) {
                        Ok(v) => {
                            let ghost previous = out@;
                            out.push(v);
                            proof {
                                assert(terms_of(out@) =~= terms_of(previous).push(out@[k]@));
                                match normal_forms(terms_of(rest@), fuel as nat) {
                                    Ok(tail) => {
                                        assert(terms_of(previous) + (seq![out@[k]@] + tail)
                                            =~= terms_of(out@) + tail);
                                    },
                                    Err(_) => {},
                                }
                            }
                        },
                        Err(e) => {
                            return Err(e);
                        },
                    }
                }
                assert(terms_of(out@) + Seq::<Term>::empty() =~= terms_of(out@));
                Ok(Value::Intrinsic { head, arguments: out })
            },
            Value::Lambda { inner } => match inner.normalize(fuel) {
                Ok(v) => Ok(Value::Lambda { inner: Box::new(v) }),
                Err(e) => Err(e),
            },
            Value::PiType { parameter_type, inner, is_propositional } => {
                match parameter_type.normalize(fuel) {
                    Ok(p) => match inner.normalize(fuel) {
                        Ok(i) => Ok(
                            Value::PiType {
                                parameter_type: Box::new(p),
                                inner: Box::new(i),
                                is_propositional,
                            },
                        ),
                        Err(e) => Err(e),
                    },
                    Err(e) => Err(e),
                }
            },
            Value::Application { left, right } => match left.normalize(fuel) {
                Ok(Value::Intrinsic { head, arguments }) => match right.normalize(fuel) {
                    Ok(r) => {
                        let ghost before = arguments@;
                        let mut arguments = arguments;
                        arguments.push(r);
                        assert(terms_of(arguments@) =~= terms_of(before).push(r@));
                        Ok(Value::Intrinsic { head, arguments })
                    },
                    Err(e) => Err(e),
                },
                Ok(Value::Lambda { inner }) => {
                    if fuel == 0 {
                        Err(NormalizeError::OutOfFuel)
                    } else {
                        match inner.substitute_n(&*right, 0) {
                            Some(s) => s.normalize(fuel - 1),
                            None => Err(NormalizeError::IndexOverflow),
                        }
                    }
                },
                Ok(Value::Witness) => Ok(Value::Witness),
                Ok(l) => match right.normalize(fuel) {
                    Ok(r) => Ok(Value::Application { left: Box::new(l), right: Box::new(r) }),
                    Err(e) => Err(e),
                },
                Err(e) => Err(e),
            },
            other => Ok(other),
        }
    }

    /// Beta-substitution of `argument` for index 0, followed by normalization.
    pub fn substitute(self, argument: Value, fuel: u64) -> (r: Result<Value, NormalizeError>)
        ensures
            outcome(r) == substitution(self@, argument@, fuel as nat),
    {
        match self.substitute_n(&argument, 0) {
            Some(s) => s.normalize(fuel),
            None => Err(NormalizeError::IndexOverflow),
        }
    }
}


/// `body` under `k` nested lambdas.
pub open spec fn under_lambdas(k: nat, body: Term) -> Term
    decreases k,
{
    if k == 0 {
        body
    } else {
        Term::Lambda { inner: Box::new(under_lambdas((k - 1) as nat, body)) }
    }
}

/// Substitution passes through lambdas, one index deeper for each.
pub proof fn lemma_subst_under_lambdas(k: nat, body: Term, argument: Term, index: nat)
    ensures
        subst(under_lambdas(k, body), argument, index) == under_lambdas(
            k,
            subst(body, argument, index + k),
        ),
    decreases k,
{
    if k > 0 {
        lemma_subst_under_lambdas((k - 1) as nat, body, argument, index + 1);
    }
}

/// Substituting for the variable bound `k` binders out, from under those `k`
/// binders, puts the argument there shifted by `k`.
pub proof fn lemma_shift_under_binders(k: nat, argument: Term)
    ensures
        subst(under_lambdas(k, Term::Binding { level: k }), argument, 0) == under_lambdas(
            k,
            shift(argument, k),
        ),
{
    lemma_subst_under_lambdas(k, Term::Binding { level: k }, argument, 0);
}

/// Beta-reduction: a lambda applied to an argument normalizes to the
/// substitution of the argument into the normal form of its body.
pub proof fn lemma_beta_reduction(body: Term, argument: Term, fuel: nat)
    ensures
        normal_form(
            Term::Application {
                left: Box::new(Term::Lambda { inner: Box::new(body) }),
                right: Box::new(argument),
            },
            fuel + 1,
        ) == match normal_form(body, fuel + 1) {
            Ok(b) => substitution(b, argument, fuel),
            Err(e) => Err(e),
        },
{
    let lambda = Term::Lambda { inner: Box::new(body) };
    assert(normal_form(lambda, fuel + 1) == match normal_form(body, fuel + 1) {
        Ok(b) => Ok(Term::Lambda { inner: Box::new(b) }),
        Err(e) => Err(e),
    });
}

} // verus!
