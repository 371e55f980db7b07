use vstd::prelude::*;
use crate::types::Type;

verus! {

/// Index of a scope in a `ScopeTable`.
pub type ScopeRef = usize;

/// Whether a class member is visible outside the class.
#[derive(PartialEq, Eq, Structural, Clone, Copy, Debug)]
pub enum Visibility {
    Public,
    Private,
}

/// Whether a binding may be reassigned.
#[derive(PartialEq, Eq, Structural, Clone, Copy, Debug)]
pub enum Mutability {
    Immutable,
    Mutable,
}

/// A class name with its type parameters, as written in a class header.
#[derive(Debug, PartialEq, Eq)]
pub struct ClassSpec {
    pub name: String,
    pub types: Vec<Type>,
}

/// A syntax tree node of a Molten program.
///
/// A function argument is a triple of its name, its declared type and its
/// default value.
#[derive(Debug, PartialEq, Eq)]
pub enum AST {
    Nil,
    Boolean(bool),
    Integer(i64),
    String(String),
    Identifier(String),
    List(Vec<AST>),
    Invoke(String, Vec<AST>),
    /// Name, visibility, arguments, body, the function's own scope and its type.
    Function(Option<String>, Visibility, Vec<(String, Option<Type>, Option<AST>)>, Box<AST>, ScopeRef, Option<Type>),
    /// Mutability, name, declared type and initial value.
    Definition(Mutability, String, Option<Type>, Box<AST>),
    Block(Vec<AST>),
    If(Box<AST>, Box<AST>, Box<AST>),
    Raise(Box<AST>),
    Try(Box<AST>, Vec<(AST, AST)>),
    Match(Box<AST>, Vec<(AST, AST)>),
    /// Loop variable, iterated value, body and the loop's own scope.
    For(String, Box<AST>, Box<AST>, ScopeRef),
    While(Box<AST>, Box<AST>),
    /// Class header, parent class header, members and the class's own scope.
    Class(ClassSpec, Option<ClassSpec>, Vec<AST>, ScopeRef),
    Index(Box<AST>, Box<AST>),
    Accessor(Box<AST>, Box<AST>),
    Import(String),
}

} // verus!
