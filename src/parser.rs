use vstd::prelude::*;

use crate::ast::{
    Binding, BindingData, Constructor, ConstructorData, Expr, ExprData, File, FileData, Item,
    ItemData, Name, NameData, ParameterOrIndex, ParameterOrIndexData, Statement, StatementData,
    TypedBinding, TypedBindingData,
};
use crate::tokenizer::{TokenData, TokenizationOutput, Token};
use crate::utils::{Span, Spanned};

verus! {

/// Where parsing stopped: the index of the token and where it starts in the text.
#[derive(Clone, Copy, PartialEq, Eq, Structural, Debug)]
pub struct Error {
    pub token_index: usize,
    pub source_location: usize,
}

/// The tokens, the position of the next one, and the token that stands for
/// the end of input.
pub struct Spool {
    pub tokens: Vec<Token>,
    pub index: usize,
    pub eof: Token,
}

impl Spool {
    /// The next token, or the end-of-input token past the last one.
    pub open spec fn current(self) -> Token {
        if self.index < self.tokens@.len() {
            self.tokens@[self.index as int]
        } else {
            self.eof
        }
    }

    /// The error that reports the current position.
    pub open spec fn error_here(self) -> Error {
        Error { source_location: self.current().span.start, token_index: self.index }
    }

    /// A spool on `tokenization_output`, at its first token.
    pub fn new(tokenization_output: TokenizationOutput) -> (r: Spool)
        ensures
            r.tokens == tokenization_output.tokens,
            r.index == 0,
            r.eof.data is Eof,
            r.eof.span == (Span { start: tokenization_output.end, end: tokenization_output.end }),
    {
        Spool {
            tokens: tokenization_output.tokens,
            index: 0,
            eof: Token {
                data: TokenData::Eof,
                span: Span { start: tokenization_output.end, end: tokenization_output.end },
            },
        }
    }

    /// The next token, or the end-of-input token.
    pub fn peek(&self) -> (r: &Token)
        ensures
            *r == self.current(),
    {
        if self.index < self.tokens.len() {
            &self.tokens[self.index]
        } else {
            &self.eof
        }
    }

    /// Moves past the next token.
    pub fn advance(&mut self)
        requires
            old(self).index < old(self).tokens@.len(),
        ensures
            final(self).index == old(self).index + 1,
            final(self).tokens == old(self).tokens,
            final(self).eof == old(self).eof,
    {
        assert(self.index < self.tokens.len());
        self.index += 1;
    }

    /// Whether every token has been read.
    pub fn is_end(&self) -> (r: bool)
        ensures
            r == (self.index >= self.tokens@.len()),
    {
        self.index >= self.tokens.len()
    }

    /// The error that reports the current position.
    pub fn error<T>(&self) -> (r: Result<T, Error>)
        ensures
            r == Err::<T, Error>(self.error_here()),
    {
        Err(Error { source_location: self.peek().span.start, token_index: self.index })
    }
}

/// `after` is `before` moved on by zero or more tokens, and still within them.
pub open spec fn advanced(before: Spool, after: Spool) -> bool {
    &&& after.tokens == before.tokens
    &&& after.eof == before.eof
    &&& before.index <= after.index <= after.tokens@.len()
}

/// A parse from `before` to `after`: a success reads at least one token; a
/// failure reports where it stopped.
pub open spec fn parsed<T>(before: Spool, after: Spool, r: Result<T, Error>) -> bool {
    &&& advanced(before, after)
    &&& (r is Ok ==> before.index < after.index)
    &&& (r matches Err(e) ==> e == after.error_here())
}

/// The spool reads within its tokens and ends in an end-of-input token.
pub open spec fn ready(s: Spool) -> bool {
    s.index <= s.tokens@.len() && s.eof.data is Eof
}

/// The start of the next token.
pub open spec fn start_here(s: Spool) -> usize {
    s.current().span.start
}

/// A parsed piece of syntax that ends where the last token read ends.
pub open spec fn ends_at<T>(after: Spool, r: Result<Spanned<T>, Error>) -> bool {
    r matches Ok(x) ==> 0 < after.index && x.span.end == after.tokens@[after.index - 1].span.end
}

/// An application spans from the start of its function to the end of its
/// argument.
pub open spec fn applied_spans(e: Expr) -> bool {
    e.data matches ExprData::Application { left, right } ==> left.span.start == e.span.start
        && right.span.end == e.span.end
}

/// A token that can start an atomic expression.
pub open spec fn starts_atomic(d: TokenData) -> bool {
    d is OpenBrace || d is OpenParen || d is Identifier || d is Asterisk || d is Question
}

/// A parsed piece of syntax that starts where the spool stood.
pub open spec fn starts_at<T>(before: Spool, r: Result<Spanned<T>, Error>) -> bool {
    r matches Ok(x) ==> x.span.start == start_here(before)
}

/// The kind of the token at position `i`, end of input past the last.
pub open spec fn kind(t: Seq<Token>, i: nat) -> TokenData {
    if i < t.len() {
        t[i as int].data
    } else {
        TokenData::Eof
    }
}

/// `j` lies past `i` and within the tokens.
pub open spec fn moved_on(t: Seq<Token>, i: nat, j: nat) -> bool {
    i < j <= t.len()
}

/// A binder at `i`: where it ends, or where it fails.
pub open spec fn rec_binding(t: Seq<Token>, i: nat) -> Result<nat, nat> {
    match kind(t, i) {
        TokenData::Underscore => Ok(i + 1),
        TokenData::Identifier { .. } => Ok(i + 1),
        _ => Err(i),
    }
}

/// A name at `i`.
pub open spec fn rec_name(t: Seq<Token>, i: nat) -> Result<nat, nat> {
    match kind(t, i) {
        TokenData::Identifier { .. } => Ok(i + 1),
        _ => Err(i),
    }
}

/// A binder with an optional `: type` at `i`.
pub open spec fn rec_typed_binding(t: Seq<Token>, i: nat) -> Result<nat, nat>
    decreases t.len() - i, 3nat,
{
    match rec_binding(t, i) {
        Err(p) => Err(p),
        Ok(j) => if kind(t, j) is Colon {
            rec_general(t, j + 1)
        } else {
            Ok(j)
        },
    }
}

/// The rest of a parenthesized list of binders, from `i` after its `(`.
pub open spec fn rec_binding_list(t: Seq<Token>, i: nat) -> Result<nat, nat>
    decreases t.len() - i, 4nat,
{
    if kind(t, i) is CloseParen {
        Ok(i + 1)
    } else {
        match rec_typed_binding(t, i) {
            Err(p) => Err(p),
            Ok(j) => if !moved_on(t, i, j) {
                Err(j)
            } else {
                match kind(t, j) {
                    TokenData::Comma => rec_binding_list(t, j + 1),
                    TokenData::CloseParen => Ok(j + 1),
                    _ => Err(j),
                }
            },
        }
    }
}

/// An expression at `i`.
pub open spec fn rec_general(t: Seq<Token>, i: nat) -> Result<nat, nat>
    decreases t.len() - i, 2nat,
{
    match kind(t, i) {
        TokenData::FnLowercase => if !(kind(t, i + 1) is OpenParen) {
            Err(i + 1)
        } else {
            match rec_binding_list(t, i + 2) {
                Err(p) => Err(p),
                Ok(j) => if !moved_on(t, i, j) {
                    Err(j)
                } else if kind(t, j) is Arrow {
                    match rec_general(t, j + 1) {
                        Err(p) => Err(p),
                        Ok(k) => if !moved_on(t, j, k) {
                            Err(k)
                        } else if kind(t, k) is Comma {
                            rec_general(t, k + 1)
                        } else {
                            Err(k)
                        },
                    }
                } else {
                    rec_general(t, j)
                },
            }
        },
        TokenData::FnUppercase => if !(kind(t, i + 1) is OpenParen) {
            Err(i + 1)
        } else {
            match rec_binding_list(t, i + 2) {
                Err(p) => Err(p),
                Ok(j) => if !moved_on(t, i, j) {
                    Err(j)
                } else if kind(t, j) is Arrow {
                    rec_general(t, j + 1)
                } else {
                    Err(j)
                },
            }
        },
        _ => match rec_atomic(t, i) {
            Err(p) => Err(p),
            Ok(j) => if !moved_on(t, i, j) {
                Err(j)
            } else {
                rec_chain(t, j)
            },
        },
    }
}

/// The rest of a chain of applications, from `i`.
pub open spec fn rec_chain(t: Seq<Token>, i: nat) -> Result<nat, nat>
    decreases t.len() - i, 2nat,
{
    if starts_atomic(kind(t, i)) {
        match rec_atomic(t, i) {
            Err(p) => Err(p),
            Ok(j) => if !moved_on(t, i, j) {
                Err(j)
            } else {
                rec_chain(t, j)
            },
        }
    } else {
        Ok(i)
    }
}

/// An atomic expression at `i`.
pub open spec fn rec_atomic(t: Seq<Token>, i: nat) -> Result<nat, nat>
    decreases t.len() - i, 1nat,
{
    match kind(t, i) {
        TokenData::OpenBrace => rec_block(t, i + 1),
        TokenData::OpenParen => match rec_general(t, i + 1) {
            Err(p) => Err(p),
            Ok(j) => if !moved_on(t, i, j) {
                Err(j)
            } else if kind(t, j) is CloseParen {
                Ok(j + 1)
            } else {
                Err(j)
            },
        },
        TokenData::Identifier { .. } => rec_path(t, i + 1),
        TokenData::Asterisk => rec_apostrophes(t, i + 1),
        TokenData::Question => Ok(i + 1),
        _ => Err(i),
    }
}

/// The rest of a block, from `i` after its `{`.
pub open spec fn rec_block(t: Seq<Token>, i: nat) -> Result<nat, nat>
    decreases t.len() - i, 4nat,
{
    if kind(t, i) is CloseBrace {
        Ok(i + 1)
    } else {
        match rec_statement(t, i) {
            Err(p) => Err(p),
            Ok(j) => if !moved_on(t, i, j) {
                Err(j)
            } else if kind(t, j) is Semicolon {
                rec_block(t, j + 1)
            } else {
                Err(j)
            },
        }
    }
}

/// The rest of a path, from `i` after a segment.
pub open spec fn rec_path(t: Seq<Token>, i: nat) -> Result<nat, nat>
    decreases t.len() - i,
{
    if kind(t, i) is DoubleColon {
        if kind(t, i + 1) is Identifier {
            rec_path(t, i + 2)
        } else {
            Err(i + 1)
        }
    } else {
        Ok(i)
    }
}

/// The apostrophes from `i` on.
pub open spec fn rec_apostrophes(t: Seq<Token>, i: nat) -> Result<nat, nat>
    decreases t.len() - i,
{
    if kind(t, i) is Apostrophe {
        rec_apostrophes(t, i + 1)
    } else {
        Ok(i)
    }
}

/// A statement at `i`.
pub open spec fn rec_statement(t: Seq<Token>, i: nat) -> Result<nat, nat>
    decreases t.len() - i, 3nat,
{
    match kind(t, i) {
        TokenData::Let => match rec_typed_binding(t, i + 1) {
            Err(p) => Err(p),
            Ok(j) => if !moved_on(t, i, j) {
                Err(j)
            } else if kind(t, j) is Equals {
                rec_general(t, j + 1)
            } else {
                Err(j)
            },
        },
        TokenData::Return => rec_general(t, i + 1),
        _ => Err(i),
    }
}

/// A parameter or an index at `i`.
pub open spec fn rec_parameter(t: Seq<Token>, i: nat) -> Result<nat, nat>
    decreases t.len() - i, 3nat,
{
    match kind(t, i) {
        TokenData::AtSign => if kind(t, i + 1) is Colon {
            rec_general(t, i + 2)
        } else {
            Err(i + 1)
        },
        _ => match rec_binding(t, i) {
            Err(p) => Err(p),
            Ok(j) => if kind(t, j) is Colon {
                rec_general(t, j + 1)
            } else {
                Err(j)
            },
        },
    }
}

/// A constructor at `i`.
pub open spec fn rec_constructor(t: Seq<Token>, i: nat) -> Result<nat, nat>
    decreases t.len() - i, 3nat,
{
    match rec_name(t, i) {
        Err(p) => Err(p),
        Ok(j) => if kind(t, j) is Colon {
            rec_general(t, j + 1)
        } else {
            Err(j)
        },
    }
}

/// The rest of a parameter list, from `i` after its `(`.
pub open spec fn rec_parameters(t: Seq<Token>, i: nat) -> Result<nat, nat>
    decreases t.len() - i, 4nat,
{
    if kind(t, i) is CloseParen {
        Ok(i + 1)
    } else {
        match rec_parameter(t, i) {
            Err(p) => Err(p),
            Ok(j) => if !moved_on(t, i, j) {
                Err(j)
            } else {
                match kind(t, j) {
                    TokenData::Comma => rec_parameters(t, j + 1),
                    TokenData::CloseParen => Ok(j + 1),
                    _ => Err(j),
                }
            },
        }
    }
}

/// The rest of a constructor list, from `i` after its `{`.
pub open spec fn rec_constructors(t: Seq<Token>, i: nat) -> Result<nat, nat>
    decreases t.len() - i, 4nat,
{
    if kind(t, i) is CloseBrace {
        Ok(i + 1)
    } else {
        match rec_constructor(t, i) {
            Err(p) => Err(p),
            Ok(j) => if !moved_on(t, i, j) {
                Err(j)
            } else {
                match kind(t, j) {
                    TokenData::Comma => rec_constructors(t, j + 1),
                    TokenData::CloseBrace => Ok(j + 1),
                    _ => Err(j),
                }
            },
        }
    }
}

/// What follows the name of a type item at `j`: optional parameters, an
/// optional universe, and the constructors.
pub open spec fn rec_type_rest(t: Seq<Token>, i: nat, j: nat) -> Result<nat, nat>
    decreases t.len() - i, 5nat,
{
    let after_parameters = if kind(t, j) is OpenParen {
        rec_parameters(t, j + 1)
    } else {
        Ok(j)
    };
    match after_parameters {
        Err(p) => Err(p),
        Ok(k) => if !moved_on(t, i, k) {
            Err(k)
        } else {
            let after_universe = if kind(t, k) is Colon {
                rec_atomic(t, k + 1)
            } else {
                Ok(k)
            };
            match after_universe {
                Err(p) => Err(p),
                Ok(m) => if !moved_on(t, i, m) {
                    Err(m)
                } else if kind(t, m) is OpenBrace {
                    rec_constructors(t, m + 1)
                } else {
                    Err(m)
                },
            }
        },
    }
}

/// An item at `i`.
pub open spec fn rec_item(t: Seq<Token>, i: nat) -> Result<nat, nat>
    decreases t.len() - i, 6nat,
{
    match kind(t, i) {
        TokenData::Let => match rec_typed_binding(t, i + 1) {
            Err(p) => Err(p),
            Ok(j) => if !moved_on(t, i, j) {
                Err(j)
            } else if !(kind(t, j) is Equals) {
                Err(j)
            } else {
                match rec_general(t, j + 1) {
                    Err(p) => Err(p),
                    Ok(k) => if !moved_on(t, j, k) {
                        Err(k)
                    } else if kind(t, k) is Semicolon {
                        Ok(k + 1)
                    } else {
                        Err(k)
                    },
                }
            },
        },
        TokenData::Type => match rec_name(t, i + 1) {
            Err(p) => Err(p),
            Ok(j) => rec_type_rest(t, i, j),
        },
        _ => Err(i),
    }
}

/// Items from `i` to the end of the tokens.
pub open spec fn rec_items(t: Seq<Token>, i: nat) -> Result<nat, nat>
    decreases t.len() - i, 7nat,
{
    if i >= t.len() {
        Ok(i)
    } else {
        match rec_item(t, i) {
            Err(p) => Err(p),
            Ok(j) => if !moved_on(t, i, j) {
                Err(j)
            } else {
                rec_items(t, j)
            },
        }
    }
}

/// A parse from `before` to `after` follows the recognizer's outcome `rec`:
/// it succeeds ending where `rec` ends, or fails where `rec` fails.
pub open spec fn follows<T>(rec: Result<nat, nat>, after: Spool, r: Result<T, Error>) -> bool {
    match rec {
        Ok(end) => r is Ok && after.index == end,
        Err(p) => r is Err && after.index == p,
    }
}

/// Whether `d` can start an atomic expression.
pub fn starts_atomic_token(d: &TokenData) -> (r: bool)
    ensures
        r == starts_atomic(*d),
{
    match d {
        TokenData::OpenBrace => true,
        TokenData::OpenParen => true,
        TokenData::Identifier { .. } => true,
        TokenData::Asterisk => true,
        TokenData::Question => true,
        _ => false,
    }
}

impl Spanned<BindingData> {
    /// A binder: a name, or `_`.
    pub fn parse(spool: &mut Spool) -> (r: Result<Binding, Error>)
        requires
            ready(*old(spool)),
        ensures
            follows(rec_binding(old(spool).tokens@, old(spool).index as nat), *final(spool), r),
            parsed(*old(spool), *final(spool), r),
            starts_at(*old(spool), r),
            ends_at(*final(spool), r),
            r is Ok ==> final(spool).index == old(spool).index + 1,
            r is Err ==> final(spool).index == old(spool).index,
            match old(spool).current().data {
                TokenData::Underscore => r matches Ok(b) && b.data is Underscore,
                TokenData::Identifier { value } => r matches Ok(b) && b.data == (
                BindingData::Identifier { binding_name: value }),
                _ => r is Err,
            },
        decreases old(spool).tokens@.len() - old(spool).index, 0nat,
    {
        match &spool.peek().data {
            TokenData::Underscore => {
                let span = spool.peek().span;
                spool.advance();
                Ok(Binding { data: BindingData::Underscore, span })
            },
            TokenData::Identifier { value } => {
                let span = spool.peek().span;
                let binding_name = value.clone();
                spool.advance();
                Ok(Binding { data: BindingData::Identifier { binding_name }, span })
            },
            _ => spool.error(),
        }
    }
}

impl Spanned<NameData> {
    /// A name.
    pub fn parse(spool: &mut Spool) -> (r: Result<Name, Error>)
        requires
            ready(*old(spool)),
        ensures
            follows(rec_name(old(spool).tokens@, old(spool).index as nat), *final(spool), r),
            parsed(*old(spool), *final(spool), r),
            starts_at(*old(spool), r),
            ends_at(*final(spool), r),
            r is Ok ==> final(spool).index == old(spool).index + 1,
            r is Err ==> final(spool).index == old(spool).index,
            match old(spool).current().data {
                TokenData::Identifier { value } => r matches Ok(n) && n.data == (NameData {
                    value,
                }),
                _ => r is Err,
            },
        decreases old(spool).tokens@.len() - old(spool).index, 0nat,
    {
        let value = match &spool.peek().data {
            TokenData::Identifier { value } => value.clone(),
            _ => {
                return spool.error();
            },
        };
        let span = spool.peek().span;
        spool.advance();
        Ok(Name { data: NameData { value }, span })
    }
}

impl Spanned<TypedBindingData> {
    /// A binder with an optional `: type`.
    pub fn parse(spool: &mut Spool) -> (r: Result<TypedBinding, Error>)
        requires
            ready(*old(spool)),
        ensures
            follows(rec_typed_binding(old(spool).tokens@, old(spool).index as nat), *final(spool), r),
            parsed(*old(spool), *final(spool), r),
            starts_at(*old(spool), r),
            ends_at(*final(spool), r),
            r matches Ok(tb) ==> match old(spool).current().data {
                TokenData::Identifier { value } => tb.data.binding.data == (
                BindingData::Identifier { binding_name: value }),
                _ => tb.data.binding.data is Underscore,
            },
            r matches Ok(tb) ==> (tb.data.ascribed_type is Some <==> kind(
                old(spool).tokens@,
                (old(spool).index + 1) as nat,
            ) is Colon),
        decreases old(spool).tokens@.len() - old(spool).index, 3nat,
    {
        let binding = match Binding::parse(spool) {
            Ok(b) => b,
            Err(e) => {
                return Err(e);
            },
        };
        let initial_span = binding.span;
        let mut final_span = binding.span;
        let mut ascribed_type = None;
        if let TokenData::Colon = spool.peek().data {
            spool.advance();
            let expr = match Expr::parse_general(spool) {
                Ok(e) => e,
                Err(e) => {
                    return Err(e);
                },
            };
            final_span = expr.span;
            ascribed_type = Some(expr);
        }
        Ok(TypedBinding::from(TypedBindingData { binding, ascribed_type }, initial_span, final_span))
    }
}

/// A parenthesized, comma-separated list of binders, after its `(`.
#[verifier::loop_isolation(false)]
fn parse_binding_list(spool: &mut Spool) -> (r: Result<Vec<TypedBinding>, Error>)
    requires
        ready(*old(spool)),
    ensures
        follows(rec_binding_list(old(spool).tokens@, old(spool).index as nat), *final(spool), r),
        parsed(*old(spool), *final(spool), r),
    decreases old(spool).tokens@.len() - old(spool).index, 4nat,
{
    let ghost start = *spool;
    let mut bindings: Vec<TypedBinding> = Vec::new();
    loop
        invariant
            advanced(start, *spool),
            ready(*spool),
            rec_binding_list(start.tokens@, start.index as nat) == rec_binding_list(
                spool.tokens@,
                spool.index as nat,
            ),
        decreases spool.tokens@.len() - spool.index,
    {
        if let TokenData::CloseParen = spool.peek().data {
            spool.advance();
            return Ok(bindings);
        }
        match TypedBinding::parse(spool) {
            Ok(b) => bindings.push(b),
            Err(e) => {
                return Err(e);
            },
        }
        match spool.peek().data {
            TokenData::Comma => {
                spool.advance();
            },
            TokenData::CloseParen => {
                spool.advance();
                return Ok(bindings);
            },
            _ => {
                return spool.error();
            },
        }
    }
}

impl Spanned<ExprData> {
    /// An expression: a `fn` or `Fn` form, or a left-nested chain of
    /// applications of atomic expressions, as long as the next token can
    /// start one.
    #[verifier::loop_isolation(false)]
    pub fn parse_general(spool: &mut Spool) -> (r: Result<Expr, Error>)
        requires
            ready(*old(spool)),
        ensures
            follows(rec_general(old(spool).tokens@, old(spool).index as nat), *final(spool), r),
            parsed(*old(spool), *final(spool), r),
            starts_at(*old(spool), r),
            ends_at(*final(spool), r),
            old(spool).current().data is FnLowercase ==> (r matches Ok(e) ==> e.data is FnLowercase),
            old(spool).current().data is FnUppercase ==> (r matches Ok(e) ==> e.data is FnUppercase),
            !(old(spool).current().data is FnLowercase) && !(old(spool).current().data is FnUppercase)
                ==> (r is Ok ==> !starts_atomic(final(spool).current().data)),
            r matches Ok(e) ==> applied_spans(e),
        decreases old(spool).tokens@.len() - old(spool).index, 2nat,
    {
        match spool.peek().data {
            TokenData::FnLowercase => {
                let initial_span = spool.peek().span;
                spool.advance();
                let TokenData::OpenParen = spool.peek().data else {
                    return spool.error();
                };
                spool.advance();
                let bindings = match parse_binding_list(spool) {
                    Ok(b) => b,
                    Err(e) => {
                        return Err(e);
                    },
                };
                let mut return_type = None;
                if let TokenData::Arrow = spool.peek().data {
                    spool.advance();
                    match Expr::parse_general(spool) {
                        Ok(t) => {
                            return_type = Some(Box::new(t));
                        },
                        Err(e) => {
                            return Err(e);
                        },
                    }
                    let TokenData::Comma = spool.peek().data else {
                        return spool.error();
                    };
                    spool.advance();
                }
                let body = match Expr::parse_general(spool) {
                    Ok(b) => Box::new(b),
                    Err(e) => {
                        return Err(e);
                    },
                };
                let final_span = body.span;
                Ok(
                    Expr::from(
                        ExprData::FnLowercase { args: bindings, return_type, body },
                        initial_span,
                        final_span,
                    ),
                )
            },
            TokenData::FnUppercase => {
                let initial_span = spool.peek().span;
                spool.advance();
                let TokenData::OpenParen = spool.peek().data else {
                    return spool.error();
                };
                spool.advance();
                let bindings = match parse_binding_list(spool) {
                    Ok(b) => b,
                    Err(e) => {
                        return Err(e);
                    },
                };
                let TokenData::Arrow = spool.peek().data else {
                    return spool.error();
                };
                spool.advance();
                let return_type = match Expr::parse_general(spool) {
                    Ok(t) => Box::new(t),
                    Err(e) => {
                        return Err(e);
                    },
                };
                let final_span = return_type.span;
                Ok(
                    Expr::from(
                        ExprData::FnUppercase { args: bindings, return_type },
                        initial_span,
                        final_span,
                    ),
                )
            },
            _ => {
                let ghost start = *spool;
                let mut out = match Expr::parse_atomic(spool) {
                    Ok(e) => e,
                    Err(e) => {
                        return Err(e);
                    },
                };
                while starts_atomic_token(&spool.peek().data)
                    invariant
                        advanced(start, *spool),
                        start.index < spool.index,
                        ready(*spool),
                        out.span.start == start_here(start),
                        out.span.end == spool.tokens@[spool.index - 1].span.end,
                        applied_spans(out),
                        rec_general(start.tokens@, start.index as nat) == rec_chain(
                            spool.tokens@,
                            spool.index as nat,
                        ),
                    decreases spool.tokens@.len() - spool.index,
                {
                    let item = match Expr::parse_atomic(spool) {
                        Ok(e) => e,
                        Err(e) => {
                            return Err(e);
                        },
                    };
                    let initial_span = out.span;
                    let final_span = item.span;
                    out = Expr::from(
                        ExprData::Application { left: Box::new(out), right: Box::new(item) },
                        initial_span,
                        final_span,
                    );
                }
                Ok(out)
            },
        }
    }

    /// An atomic expression: a block, a parenthesized expression, a path, a
    /// universe `*` with one apostrophe per level, or `?`.
    #[verifier::loop_isolation(false)]
    pub fn parse_atomic(spool: &mut Spool) -> (r: Result<Expr, Error>)
        requires
            ready(*old(spool)),
        ensures
            follows(rec_atomic(old(spool).tokens@, old(spool).index as nat), *final(spool), r),
            parsed(*old(spool), *final(spool), r),
            starts_at(*old(spool), r),
            ends_at(*final(spool), r),
            !starts_atomic(old(spool).current().data) ==> r is Err && final(spool).index == old(
                spool,
            ).index,
            old(spool).current().data is OpenBrace ==> (r matches Ok(e) ==> e.data is Block),
            old(spool).current().data is OpenParen ==> (r matches Ok(e) ==> e.data is Grouping),
            old(spool).current().data matches TokenData::Identifier { value } ==> (r matches Ok(e)
                ==> e.data matches ExprData::Value { path } && path@.len() >= 1 && path@[0]
                == value),
            old(spool).current().data is Asterisk ==> (r matches Ok(e) ==> e.data == (
            ExprData::Type { level: (final(spool).index - old(spool).index - 1) as usize })),
            old(spool).current().data is Question ==> (r matches Ok(e) && e.data is Prop
                && final(spool).index == old(spool).index + 1),
        decreases old(spool).tokens@.len() - old(spool).index, 1nat,
    {
        let ghost start = *spool;
        match &spool.peek().data {
            TokenData::OpenBrace => {
                let initial_span = spool.peek().span;
                spool.advance();
                let mut statements: Vec<Statement> = Vec::new();
                loop
                    invariant
                        advanced(start, *spool),
                        start.index < spool.index,
                        ready(*spool),
                        rec_atomic(start.tokens@, start.index as nat) == rec_block(
                            spool.tokens@,
                            spool.index as nat,
                        ),
                    decreases spool.tokens@.len() - spool.index,
                {
                    if let TokenData::CloseBrace = spool.peek().data {
                        break ;
                    }
                    match Statement::parse(spool) {
                        Ok(statement) => statements.push(statement),
                        Err(e) => {
                            return Err(e);
                        },
                    }
                    let TokenData::Semicolon = spool.peek().data else {
                        return spool.error();
                    };
                    spool.advance();
                }
                let final_span = spool.peek().span;
                spool.advance();
                Ok(Expr::from(ExprData::Block { statements }, initial_span, final_span))
            },
            TokenData::OpenParen => {
                let initial_span = spool.peek().span;
                spool.advance();
                let expr = match Expr::parse_general(spool) {
                    Ok(e) => e,
                    Err(e) => {
                        return Err(e);
                    },
                };
                let TokenData::CloseParen = spool.peek().data else {
                    return spool.error();
                };
                let final_span = spool.peek().span;
                spool.advance();
                Ok(Expr::from(ExprData::Grouping { inner: Box::new(expr) }, initial_span, final_span))
            },
            TokenData::Identifier { value } => {
                let initial_span = spool.peek().span;
                let mut final_span = initial_span;
                let mut path: Vec<String> = Vec::new();
                path.push(value.clone());
                spool.advance();
                loop
                    invariant
                        advanced(start, *spool),
                        start.index < spool.index,
                        ready(*spool),
                        path@.len() >= 1,
                        start.current().data matches TokenData::Identifier { value } && path@[0]
                            == value,
                        final_span == spool.tokens@[spool.index - 1].span,
                        rec_atomic(start.tokens@, start.index as nat) == rec_path(
                            spool.tokens@,
                            spool.index as nat,
                        ),
                    decreases spool.tokens@.len() - spool.index,
                {
                    let TokenData::DoubleColon = spool.peek().data else {
                        break ;
                    };
                    spool.advance();
                    let segment = match &spool.peek().data {
                        TokenData::Identifier { value } => value.clone(),
                        _ => {
                            return spool.error();
                        },
                    };
                    final_span = spool.peek().span;
                    path.push(segment);
                    spool.advance();
                }
                Ok(Expr::from(ExprData::Value { path }, initial_span, final_span))
            },
            TokenData::Asterisk => {
                let initial_span = spool.peek().span;
                let mut final_span = initial_span;
                spool.advance();
                let mut level: usize = 0;
                loop
                    invariant
                        advanced(start, *spool),
                        ready(*spool),
                        level == spool.index - start.index - 1,
                        final_span == spool.tokens@[spool.index - 1].span,
                        rec_atomic(start.tokens@, start.index as nat) == rec_apostrophes(
                            spool.tokens@,
                            spool.index as nat,
                        ),
                    decreases spool.tokens@.len() - spool.index,
                {
                    let TokenData::Apostrophe = spool.peek().data else {
                        break ;
                    };
                    final_span = spool.peek().span;
                    spool.advance();
                    level += 1;
                }
                Ok(Expr::from(ExprData::Type { level }, initial_span, final_span))
            },
            TokenData::Question => {
                let span = spool.peek().span;
                spool.advance();
                Ok(Expr { data: ExprData::Prop, span })
            },
            _ => spool.error(),
        }
    }
}

impl Spanned<StatementData> {
    /// `let binding = body` or `return body`.
    pub fn parse(spool: &mut Spool) -> (r: Result<Statement, Error>)
        requires
            ready(*old(spool)),
        ensures
            follows(rec_statement(old(spool).tokens@, old(spool).index as nat), *final(spool), r),
            parsed(*old(spool), *final(spool), r),
            starts_at(*old(spool), r),
            ends_at(*final(spool), r),
            old(spool).current().data is Let ==> (r matches Ok(s) ==> s.data is Let),
            old(spool).current().data is Return ==> (r matches Ok(s) ==> s.data is Return),
            !(old(spool).current().data is Let) && !(old(spool).current().data is Return) ==> r is Err
                && final(spool).index == old(spool).index,
            r matches Ok(st) ==> (st.data matches StatementData::Let { binding, .. } ==> match kind(
                old(spool).tokens@,
                (old(spool).index + 1) as nat,
            ) {
                TokenData::Identifier { value } => binding.data.binding.data == (
                BindingData::Identifier { binding_name: value }),
                _ => binding.data.binding.data is Underscore,
            }),
            r matches Ok(st) ==> (st.data matches StatementData::Return { body } ==> body.span.start
                == old(spool).tokens@[old(spool).index + 1].span.start && body.span.end
                == st.span.end),
        decreases old(spool).tokens@.len() - old(spool).index, 3nat,
    {
        match spool.peek().data {
            TokenData::Let => {
                let initial_span = spool.peek().span;
                spool.advance();
                let binding = match TypedBinding::parse(spool) {
                    Ok(b) => b,
                    Err(e) => {
                        return Err(e);
                    },
                };
                let TokenData::Equals = spool.peek().data else {
                    return spool.error();
                };
                spool.advance();
                let body = match Expr::parse_general(spool) {
                    Ok(b) => b,
                    Err(e) => {
                        return Err(e);
                    },
                };
                let final_span = body.span;
                Ok(Statement::from(StatementData::Let { binding, body }, initial_span, final_span))
            },
            TokenData::Return => {
                let initial_span = spool.peek().span;
                spool.advance();
                let body = match Expr::parse_general(spool) {
                    Ok(b) => b,
                    Err(e) => {
                        return Err(e);
                    },
                };
                let final_span = body.span;
                Ok(Statement::from(StatementData::Return { body }, initial_span, final_span))
            },
            _ => spool.error(),
        }
    }
}


impl Spanned<ParameterOrIndexData> {
    /// `binding : type` for a parameter, or `@ : type` for an index.
    pub fn parse(spool: &mut Spool) -> (r: Result<ParameterOrIndex, Error>)
        requires
            ready(*old(spool)),
        ensures
            follows(rec_parameter(old(spool).tokens@, old(spool).index as nat), *final(spool), r),
            parsed(*old(spool), *final(spool), r),
            starts_at(*old(spool), r),
            ends_at(*final(spool), r),
            old(spool).current().data is AtSign ==> (r matches Ok(p) ==> p.data is Index),
            !(old(spool).current().data is AtSign) ==> (r matches Ok(p) ==> p.data is Parameter),
            r matches Ok(p) ==> (p.data matches ParameterOrIndexData::Parameter { binding, .. } ==> match old(
                spool,
            ).current().data {
                TokenData::Identifier { value } => binding.data == (BindingData::Identifier {
                    binding_name: value,
                }),
                _ => binding.data is Underscore,
            }),
        decreases old(spool).tokens@.len() - old(spool).index, 3nat,
    {
        match spool.peek().data {
            TokenData::AtSign => {
                let initial_span = spool.peek().span;
                spool.advance();
                let TokenData::Colon = spool.peek().data else {
                    return spool.error();
                };
                spool.advance();
                let ascribed_type = match Expr::parse_general(spool) {
                    Ok(t) => t,
                    Err(e) => {
                        return Err(e);
                    },
                };
                let final_span = ascribed_type.span;
                Ok(
                    ParameterOrIndex::from(
                        ParameterOrIndexData::Index { ascribed_type },
                        initial_span,
                        final_span,
                    ),
                )
            },
            _ => {
                let binding = match Binding::parse(spool) {
                    Ok(b) => b,
                    Err(e) => {
                        return Err(e);
                    },
                };
                let TokenData::Colon = spool.peek().data else {
                    return spool.error();
                };
                spool.advance();
                let ascribed_type = match Expr::parse_general(spool) {
                    Ok(t) => t,
                    Err(e) => {
                        return Err(e);
                    },
                };
                let initial_span = binding.span;
                let final_span = ascribed_type.span;
                Ok(
                    ParameterOrIndex::from(
                        ParameterOrIndexData::Parameter { binding, ascribed_type },
                        initial_span,
                        final_span,
                    ),
                )
            },
        }
    }
}

impl Spanned<ConstructorData> {
    /// `name : type`.
    pub fn parse(spool: &mut Spool) -> (r: Result<Constructor, Error>)
        requires
            ready(*old(spool)),
        ensures
            follows(rec_constructor(old(spool).tokens@, old(spool).index as nat), *final(spool), r),
            parsed(*old(spool), *final(spool), r),
            starts_at(*old(spool), r),
            ends_at(*final(spool), r),
            old(spool).current().data matches TokenData::Identifier { value } ==> (r matches Ok(c)
                ==> c.data.name.data.value == value),
            !(old(spool).current().data is Identifier) ==> r is Err && final(spool).index == old(
                spool,
            ).index,
        decreases old(spool).tokens@.len() - old(spool).index, 3nat,
    {
        let name = match Name::parse(spool) {
            Ok(n) => n,
            Err(e) => {
                return Err(e);
            },
        };
        let TokenData::Colon = spool.peek().data else {
            return spool.error();
        };
        spool.advance();
        let constructor_type = match Expr::parse_general(spool) {
            Ok(t) => t,
            Err(e) => {
                return Err(e);
            },
        };
        let initial_span = name.span;
        let final_span = constructor_type.span;
        Ok(Constructor::from(ConstructorData { name, constructor_type }, initial_span, final_span))
    }
}

impl Spanned<ItemData> {
    /// `let binding = body;`, or `type Name(parameters) : universe { constructors }`
    /// with the parameters and the universe optional.
    #[verifier::loop_isolation(false)]
    pub fn parse(spool: &mut Spool) -> (r: Result<Item, Error>)
        requires
            ready(*old(spool)),
        ensures
            follows(rec_item(old(spool).tokens@, old(spool).index as nat), *final(spool), r),
            parsed(*old(spool), *final(spool), r),
            starts_at(*old(spool), r),
            ends_at(*final(spool), r),
            old(spool).current().data is Let ==> (r matches Ok(i) ==> i.data is Let),
            old(spool).current().data is Type ==> (r matches Ok(i) ==> i.data is Type),
            !(old(spool).current().data is Let) && !(old(spool).current().data is Type) ==> r is Err
                && final(spool).index == old(spool).index,
        decreases old(spool).tokens@.len() - old(spool).index, 5nat,
    {
        let ghost start = *spool;
        match spool.peek().data {
            TokenData::Let => {
                let initial_span = spool.peek().span;
                spool.advance();
                let binding = match TypedBinding::parse(spool) {
                    Ok(b) => b,
                    Err(e) => {
                        return Err(e);
                    },
                };
                let TokenData::Equals = spool.peek().data else {
                    return spool.error();
                };
                spool.advance();
                let body = match Expr::parse_general(spool) {
                    Ok(b) => b,
                    Err(e) => {
                        return Err(e);
                    },
                };
                let TokenData::Semicolon = spool.peek().data else {
                    return spool.error();
                };
                let final_span = spool.peek().span;
                spool.advance();
                Ok(Item::from(ItemData::Let { binding, body }, initial_span, final_span))
            },
            TokenData::Type => {
                let initial_span = spool.peek().span;
                spool.advance();
                let name = match Name::parse(spool) {
                    Ok(n) => n,
                    Err(e) => {
                        return Err(e);
                    },
                };
                let ghost after_name = spool.index as nat;
                let mut params_and_indexes: Vec<ParameterOrIndex> = Vec::new();
                if let TokenData::OpenParen = spool.peek().data {
                    spool.advance();
                    loop
                        invariant
                            advanced(start, *spool),
                            start.index < spool.index,
                            ready(*spool),
                            rec_parameters(start.tokens@, after_name + 1) == rec_parameters(
                                spool.tokens@,
                                spool.index as nat,
                            ),
                        decreases spool.tokens@.len() - spool.index,
                    {
                        if let TokenData::CloseParen = spool.peek().data {
                            spool.advance();
                            break ;
                        }
                        match ParameterOrIndex::parse(spool) {
                            Ok(p) => params_and_indexes.push(p),
                            Err(e) => {
                                return Err(e);
                            },
                        }
                        match spool.peek().data {
                            TokenData::Comma => {
                                spool.advance();
                            },
                            TokenData::CloseParen => {
                                spool.advance();
                                break ;
                            },
                            _ => {
                                return spool.error();
                            },
                        }
                    }
                }
                let mut universe = None;
                if let TokenData::Colon = spool.peek().data {
                    spool.advance();
                    match Expr::parse_atomic(spool) {
                        Ok(u) => {
                            universe = Some(u);
                        },
                        Err(e) => {
                            return Err(e);
                        },
                    }
                }
                let TokenData::OpenBrace = spool.peek().data else {
                    return spool.error();
                };
                spool.advance();
                let ghost after_brace = spool.index as nat;
                let mut constructors: Vec<Constructor> = Vec::new();
                let mut final_span = spool.peek().span;
                loop
                    invariant
                        advanced(start, *spool),
                        start.index < spool.index,
                        ready(*spool),
                        rec_constructors(start.tokens@, after_brace) == rec_constructors(
                            spool.tokens@,
                            spool.index as nat,
                        ),
                    decreases spool.tokens@.len() - spool.index,
                {
                    if let TokenData::CloseBrace = spool.peek().data {
                        final_span = spool.peek().span;
                        spool.advance();
                        break ;
                    }
                    match Constructor::parse(spool) {
                        Ok(c) => constructors.push(c),
                        Err(e) => {
                            return Err(e);
                        },
                    }
                    match spool.peek().data {
                        TokenData::Comma => {
                            spool.advance();
                        },
                        TokenData::CloseBrace => {
                            final_span = spool.peek().span;
                            spool.advance();
                            break ;
                        },
                        _ => {
                            return spool.error();
                        },
                    }
                }
                Ok(
                    Item::from(
                        ItemData::Type { name, params_and_indexes, universe, constructors },
                        initial_span,
                        final_span,
                    ),
                )
            },
            _ => spool.error(),
        }
    }
}

impl Spanned<FileData> {
    /// Items up to the end of the tokens.
    #[verifier::loop_isolation(false)]
    pub fn parse(spool: &mut Spool) -> (r: Result<File, Error>)
        requires
            ready(*old(spool)),
        ensures
            follows(rec_items(old(spool).tokens@, old(spool).index as nat), *final(spool), r),
            advanced(*old(spool), *final(spool)),
            r matches Err(e) ==> e == final(spool).error_here(),
            r matches Ok(f) ==> final(spool).index == final(spool).tokens@.len() && f.span == (Span {
                start: 0,
                end: old(spool).eof.span.end,
            }),
        decreases old(spool).tokens@.len() - old(spool).index, 6nat,
    {
        let ghost start = *spool;
        let mut items: Vec<Item> = Vec::new();
        while !spool.is_end()
            invariant
                advanced(start, *spool),
                ready(*spool),
                rec_items(start.tokens@, start.index as nat) == rec_items(
                    spool.tokens@,
                    spool.index as nat,
                ),
            decreases spool.tokens@.len() - spool.index,
        {
            match Item::parse(spool) {
                Ok(item) => items.push(item),
                Err(e) => {
                    return Err(e);
                },
            }
        }
        Ok(File { data: FileData { items }, span: Span { start: 0, end: spool.eof.span.end } })
    }
}

/// Parses the tokens of a whole file.
pub fn parse(tokenization_output: TokenizationOutput) -> (r: Result<File, Error>)
    ensures
        match rec_items(tokenization_output.tokens@, 0) {
            Ok(_) => r matches Ok(f) && f.span == (Span { start: 0, end: tokenization_output.end }),
            Err(p) => r == Err::<File, Error>(
                Error {
                    token_index: p as usize,
                    source_location: if p < tokenization_output.tokens@.len() {
                        tokenization_output.tokens@[p as int].span.start
                    } else {
                        tokenization_output.end
                    },
                },
            ),
        },
{
    let mut spool = Spool::new(tokenization_output);
    File::parse(&mut spool)
}

} // verus!
