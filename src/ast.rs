use vstd::prelude::*;

use crate::utils::Spanned;

verus! {

pub type File = Spanned<FileData>;

pub type Expr = Spanned<ExprData>;

pub type TypedBinding = Spanned<TypedBindingData>;

pub type Binding = Spanned<BindingData>;

pub type Name = Spanned<NameData>;

pub type Statement = Spanned<StatementData>;

pub type Item = Spanned<ItemData>;

pub type ParameterOrIndex = Spanned<ParameterOrIndexData>;

pub type Constructor = Spanned<ConstructorData>;

#[derive(Debug)]
pub struct FileData {
    pub items: Vec<Item>,
}

#[derive(Debug)]
pub enum ExprData {
    FnLowercase { args: Vec<TypedBinding>, return_type: Option<Box<Expr>>, body: Box<Expr> },
    FnUppercase { args: Vec<TypedBinding>, return_type: Box<Expr> },
    Block { statements: Vec<Statement> },
    Grouping { inner: Box<Expr> },
    Application { left: Box<Expr>, right: Box<Expr> },
    Value { path: Vec<String> },
    Type { level: usize },
    Prop,
}

#[derive(Debug)]
pub struct TypedBindingData {
    pub binding: Binding,
    pub ascribed_type: Option<Expr>,
}

#[derive(Debug)]
pub enum BindingData {
    Identifier { binding_name: String },
    Underscore,
}

#[derive(Debug)]
pub struct NameData {
    pub value: String,
}

#[derive(Debug)]
pub enum StatementData {
    Let { binding: TypedBinding, body: Expr },
    Return { body: Expr },
}

#[derive(Debug)]
pub enum ItemData {
    Let { binding: TypedBinding, body: Expr },
    Type {
        name: Name,
        params_and_indexes: Vec<ParameterOrIndex>,
        universe: Option<Expr>,
        constructors: Vec<Constructor>,
    },
}

#[derive(Debug)]
pub enum ParameterOrIndexData {
    Parameter { binding: Binding, ascribed_type: Expr },
    Index { ascribed_type: Expr },
}

#[derive(Debug)]
pub struct ConstructorData {
    pub name: Name,
    pub constructor_type: Expr,
}

} // verus!
