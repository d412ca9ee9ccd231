//! The syntax tree that the transform works on.
//!
//! Only what the transform looks at or builds is spelled out. Every other part of a program is
//! kept by the caller, and stands in the tree as a number: the `source` of a node, or a variant
//! named `Source`. Such a number is carried along and never looked into.
use vstd::prelude::*;

verus! {

/// A range of source text. Nodes that the transform builds have the empty range at zero.
#[derive(Clone, Copy, Debug, PartialEq, Eq, Structural)]
pub struct Span {
    pub start: u32,
    pub end: u32,
}

/// A variable that the context knows: its name, and its number in the symbol table.
#[derive(Debug, PartialEq, Eq)]
pub struct BoundIdentifier {
    pub name: String,
    pub symbol_id: usize,
}

/// An identifier in the tree. One with a `symbol_id` names that variable; one without is a bare
/// name, whose meaning is left to its position. One that reads or writes its variable has the
/// number of that reference in the reference table; one that declares it has none.
#[derive(Debug, PartialEq, Eq)]
pub struct Identifier {
    pub name: String,
    pub symbol_id: Option<usize>,
    pub reference_id: Option<usize>,
}

/// The runtime helpers that the output calls.
#[derive(Clone, Copy, Debug, PartialEq, Eq, Structural)]
pub enum Helper {
    ApplyDecs2311,
    ApplyDecs2203R,
}

#[derive(Debug, PartialEq, Eq)]
pub enum Expression {
    /// An expression of the program that the transform does not look into.
    Source(usize),
    NullLiteral,
    NumericLiteral(i32),
    StringLiteral(String),
    ThisExpression,
    Super(Span),
    /// The function that the helper loader provides under this name.
    Helper(Helper),
    Identifier(Identifier),
    ArrayExpression(Vec<Expression>),
    SequenceExpression(Vec<Expression>),
    CallExpression(Box<CallExpression>),
    /// A plain assignment, `left = right`.
    AssignmentExpression(Box<AssignmentExpression>),
    FunctionExpression(Function),
    ArrowFunctionExpression(Function),
    /// `object.#field`
    PrivateFieldExpression(Box<PrivateFieldExpression>),
    /// `#left in right`
    PrivateInExpression(Box<PrivateInExpression>),
    ClassExpression(Box<Class>),
    /// A copy of the expression that has none of its resolved references or scopes.
    CloneIn(Box<Expression>),
}

#[derive(Debug, PartialEq, Eq)]
pub struct CallExpression {
    /// The call of the program that this is, if it is one. It holds what is not spelled out here.
    pub source: Option<usize>,
    pub span: Span,
    pub callee: Expression,
    pub arguments: Vec<Argument>,
}

#[derive(Debug, PartialEq, Eq)]
pub enum Argument {
    /// An argument of the program, spread or not.
    Source(usize),
    Expression(Expression),
}

#[derive(Debug, PartialEq, Eq)]
pub struct AssignmentExpression {
    pub left: AssignmentTarget,
    pub right: Expression,
}

/// The parameters and the body of a function that the transform builds.
#[derive(Debug, PartialEq, Eq)]
pub struct Function {
    pub params: Vec<Identifier>,
    pub body: Vec<Statement>,
}

#[derive(Debug, PartialEq, Eq)]
pub struct PrivateFieldExpression {
    pub object: Expression,
    pub field: String,
}

#[derive(Debug, PartialEq, Eq)]
pub struct PrivateInExpression {
    pub left: String,
    pub right: Expression,
}

#[derive(Debug, PartialEq, Eq)]
pub enum AssignmentTarget {
    /// A variable that is written to.
    Identifier(Identifier),
    PrivateField(Box<PrivateFieldExpression>),
    /// `[a, b]`
    Array(Vec<AssignmentTarget>),
    /// `{ key: a }`
    Object(Vec<AssignmentTargetProperty>),
}

#[derive(Debug, PartialEq, Eq)]
pub struct AssignmentTargetProperty {
    pub key: String,
    pub binding: AssignmentTarget,
}

#[derive(Debug, PartialEq, Eq)]
pub enum Statement {
    /// A statement of the program that the transform does not look into.
    Source(usize),
    ExpressionStatement(Span, Expression),
    ReturnStatement(Expression),
    /// `var binding = init;`
    VariableDeclaration(Identifier, Option<Expression>),
    ClassDeclaration(Box<Class>),
}

#[derive(Clone, Copy, Debug, PartialEq, Eq, Structural)]
pub enum ClassType {
    ClassDeclaration,
    ClassExpression,
}

#[derive(Debug, PartialEq, Eq)]
pub struct Class {
    pub source: usize,
    pub class_type: ClassType,
    /// The name that the class is declared with, if any.
    pub name: Option<String>,
    pub decorators: Vec<Decorator>,
    pub super_class: Option<Expression>,
    pub body: Vec<ClassElement>,
}

#[derive(Debug, PartialEq, Eq)]
pub struct Decorator {
    pub span: Span,
    pub expression: Expression,
}

#[derive(Debug, PartialEq, Eq)]
pub enum ClassElement {
    /// A static block or an index signature.
    Source(usize),
    MethodDefinition(MethodDefinition),
    PropertyDefinition(PropertyDefinition),
    AccessorProperty(AccessorProperty),
}

#[derive(Clone, Copy, Debug, PartialEq, Eq, Structural)]
pub enum MethodDefinitionKind {
    Constructor,
    Method,
    Getter,
    Setter,
}

/// Where a method comes from.
#[derive(Clone, Copy, Debug, PartialEq, Eq, Structural)]
pub enum MethodSource {
    Source(usize),
    /// A constructor that the transform adds, for which the scope `scope_id` was made. Its
    /// statements are `super();`, in a class with a superclass, and the one that runs the
    /// initialisers. Whether it takes parameters, and passes them on, is left to who builds it.
    Created { has_super: bool, scope_id: usize },
}

#[derive(Debug, PartialEq, Eq)]
pub struct MethodDefinition {
    pub source: MethodSource,
    pub kind: MethodDefinitionKind,
    pub is_static: bool,
    pub decorators: Vec<Decorator>,
    pub key: PropertyKey,
    /// The statements of the body. An overload signature has no body.
    pub body: Option<Vec<Statement>>,
}

#[derive(Debug, PartialEq, Eq)]
pub struct PropertyDefinition {
    pub source: usize,
    pub is_abstract: bool,
    pub is_static: bool,
    pub decorators: Vec<Decorator>,
    pub key: PropertyKey,
    pub value: Option<Expression>,
}

#[derive(Debug, PartialEq, Eq)]
pub struct AccessorProperty {
    pub source: usize,
    pub is_static: bool,
    pub decorators: Vec<Decorator>,
    pub key: PropertyKey,
    pub value: Option<Expression>,
}

#[derive(Debug, PartialEq, Eq)]
pub enum PropertyKey {
    StaticIdentifier(String),
    PrivateIdentifier(String),
    /// A computed key, a string or a number.
    Other,
}

#[derive(Debug, PartialEq, Eq)]
pub struct Program {
    pub body: Vec<Statement>,
}

} // verus!
