//! The mathematical model of the syntax tree: the same shape, with sequences in place of vectors
//! and strings. Two trees that a program cannot tell apart have equal models.
use crate::ast::{
    AccessorProperty, Argument, AssignmentExpression, AssignmentTarget, AssignmentTargetProperty,
    BoundIdentifier, CallExpression, Class, ClassElement, ClassType, Decorator, Expression,
    Function, Helper, Identifier, MethodDefinition, MethodDefinitionKind, MethodSource,
    PrivateFieldExpression, PrivateInExpression, Program, PropertyDefinition, PropertyKey, Span,
    Statement,
};
use vstd::prelude::*;

verus! {

#[verifier::ext_equal]
pub struct BoundIdentifierView {
    pub name: Seq<char>,
    pub symbol_id: nat,
}

#[verifier::ext_equal]
pub struct IdentifierView {
    pub name: Seq<char>,
    pub symbol_id: Option<nat>,
    pub reference_id: Option<nat>,
}

#[verifier::ext_equal]
pub enum ExpressionView {
    Source(usize),
    NullLiteral,
    NumericLiteral(i32),
    StringLiteral(Seq<char>),
    ThisExpression,
    Super(Span),
    Helper(Helper),
    Identifier(IdentifierView),
    ArrayExpression(Seq<ExpressionView>),
    SequenceExpression(Seq<ExpressionView>),
    CallExpression(Box<CallExpressionView>),
    AssignmentExpression(Box<AssignmentExpressionView>),
    FunctionExpression(FunctionView),
    ArrowFunctionExpression(FunctionView),
    PrivateFieldExpression(Box<PrivateFieldExpressionView>),
    PrivateInExpression(Box<PrivateInExpressionView>),
    ClassExpression(Box<ClassView>),
    CloneIn(Box<ExpressionView>),
}

#[verifier::ext_equal]
pub struct CallExpressionView {
    pub source: Option<usize>,
    pub span: Span,
    pub callee: ExpressionView,
    pub arguments: Seq<ArgumentView>,
}

#[verifier::ext_equal]
pub enum ArgumentView {
    Source(usize),
    Expression(ExpressionView),
}

#[verifier::ext_equal]
pub struct AssignmentExpressionView {
    pub left: AssignmentTargetView,
    pub right: ExpressionView,
}

#[verifier::ext_equal]
pub struct FunctionView {
    pub params: Seq<IdentifierView>,
    pub body: Seq<StatementView>,
}

#[verifier::ext_equal]
pub struct PrivateFieldExpressionView {
    pub object: ExpressionView,
    pub field: Seq<char>,
}

#[verifier::ext_equal]
pub struct PrivateInExpressionView {
    pub left: Seq<char>,
    pub right: ExpressionView,
}

#[verifier::ext_equal]
pub enum AssignmentTargetView {
    Identifier(IdentifierView),
    PrivateField(Box<PrivateFieldExpressionView>),
    Array(Seq<AssignmentTargetView>),
    Object(Seq<AssignmentTargetPropertyView>),
}

#[verifier::ext_equal]
pub struct AssignmentTargetPropertyView {
    pub key: Seq<char>,
    pub binding: AssignmentTargetView,
}

#[verifier::ext_equal]
pub enum StatementView {
    Source(usize),
    ExpressionStatement(Span, ExpressionView),
    ReturnStatement(ExpressionView),
    VariableDeclaration(IdentifierView, Option<ExpressionView>),
    ClassDeclaration(Box<ClassView>),
}

#[verifier::ext_equal]
pub struct ClassView {
    pub source: usize,
    pub class_type: ClassType,
    pub name: Option<Seq<char>>,
    pub decorators: Seq<DecoratorView>,
    pub super_class: Option<ExpressionView>,
    pub body: Seq<ClassElementView>,
}

#[verifier::ext_equal]
pub struct DecoratorView {
    pub span: Span,
    pub expression: ExpressionView,
}

#[verifier::ext_equal]
pub enum ClassElementView {
    Source(usize),
    MethodDefinition(MethodDefinitionView),
    PropertyDefinition(PropertyDefinitionView),
    AccessorProperty(AccessorPropertyView),
}

#[verifier::ext_equal]
pub struct MethodDefinitionView {
    pub source: MethodSource,
    pub kind: MethodDefinitionKind,
    pub is_static: bool,
    pub decorators: Seq<DecoratorView>,
    pub key: PropertyKeyView,
    pub body: Option<Seq<StatementView>>,
}

#[verifier::ext_equal]
pub struct PropertyDefinitionView {
    pub source: usize,
    pub is_abstract: bool,
    pub is_static: bool,
    pub decorators: Seq<DecoratorView>,
    pub key: PropertyKeyView,
    pub value: Option<ExpressionView>,
}

#[verifier::ext_equal]
pub struct AccessorPropertyView {
    pub source: usize,
    pub is_static: bool,
    pub decorators: Seq<DecoratorView>,
    pub key: PropertyKeyView,
    pub value: Option<ExpressionView>,
}

#[verifier::ext_equal]
pub enum PropertyKeyView {
    StaticIdentifier(Seq<char>),
    PrivateIdentifier(Seq<char>),
    Other,
}

#[verifier::ext_equal]
pub struct ProgramView {
    pub body: Seq<StatementView>,
}

pub open spec fn identifier_view(identifier: Identifier) -> IdentifierView {
    IdentifierView {
        name: identifier.name@,
        symbol_id: match identifier.symbol_id {
            Some(id) => Some(id as nat),
            None => None,
        },
        reference_id: match identifier.reference_id {
            Some(id) => Some(id as nat),
            None => None,
        },
    }
}

pub open spec fn identifiers_view(s: Seq<Identifier>) -> Seq<IdentifierView> {
    s.map_values(|identifier: Identifier| identifier_view(identifier))
}

pub open spec fn property_key_view(key: PropertyKey) -> PropertyKeyView {
    match key {
        PropertyKey::StaticIdentifier(name) => PropertyKeyView::StaticIdentifier(name@),
        PropertyKey::PrivateIdentifier(name) => PropertyKeyView::PrivateIdentifier(name@),
        PropertyKey::Other => PropertyKeyView::Other,
    }
}

pub open spec fn expression_view(e: Expression) -> ExpressionView
    decreases e,
{
    match e {
        Expression::Source(id) => ExpressionView::Source(id),
        Expression::NullLiteral => ExpressionView::NullLiteral,
        Expression::NumericLiteral(n) => ExpressionView::NumericLiteral(n),
        Expression::StringLiteral(s) => ExpressionView::StringLiteral(s@),
        Expression::ThisExpression => ExpressionView::ThisExpression,
        Expression::Super(span) => ExpressionView::Super(span),
        Expression::Helper(helper) => ExpressionView::Helper(helper),
        Expression::Identifier(identifier) => ExpressionView::Identifier(identifier_view(identifier)),
        Expression::ArrayExpression(v) => ExpressionView::ArrayExpression(expressions_view(v@)),
        Expression::SequenceExpression(v) => ExpressionView::SequenceExpression(expressions_view(v@)),
        Expression::CallExpression(call) => ExpressionView::CallExpression(Box::new(call_view(*call))),
        Expression::AssignmentExpression(assign) => ExpressionView::AssignmentExpression(
            Box::new(assignment_view(*assign)),
        ),
        Expression::FunctionExpression(f) => ExpressionView::FunctionExpression(function_view(f)),
        Expression::ArrowFunctionExpression(f) => ExpressionView::ArrowFunctionExpression(
            function_view(f),
        ),
        Expression::PrivateFieldExpression(member) => ExpressionView::PrivateFieldExpression(
            Box::new(private_field_view(*member)),
        ),
        Expression::PrivateInExpression(test) => ExpressionView::PrivateInExpression(
            Box::new(private_in_view(*test)),
        ),
        Expression::ClassExpression(class) => ExpressionView::ClassExpression(
            Box::new(class_view(*class)),
        ),
        Expression::CloneIn(inner) => ExpressionView::CloneIn(Box::new(expression_view(*inner))),
    }
}

pub open spec fn expressions_view(s: Seq<Expression>) -> Seq<ExpressionView>
    decreases s,
{
    Seq::new(
        s.len(),
        |i: int|
            if 0 <= i < s.len() {
                expression_view(s[i])
            } else {
                ExpressionView::NullLiteral
            },
    )
}

pub open spec fn call_view(call: CallExpression) -> CallExpressionView
    decreases call,
{
    CallExpressionView {
        source: call.source,
        span: call.span,
        callee: expression_view(call.callee),
        arguments: arguments_view(call.arguments@),
    }
}

pub open spec fn argument_view(argument: Argument) -> ArgumentView
    decreases argument,
{
    match argument {
        Argument::Source(id) => ArgumentView::Source(id),
        Argument::Expression(e) => ArgumentView::Expression(expression_view(e)),
    }
}

pub open spec fn arguments_view(s: Seq<Argument>) -> Seq<ArgumentView>
    decreases s,
{
    Seq::new(
        s.len(),
        |i: int|
            if 0 <= i < s.len() {
                argument_view(s[i])
            } else {
                ArgumentView::Source(0)
            },
    )
}

pub open spec fn assignment_view(assign: AssignmentExpression) -> AssignmentExpressionView
    decreases assign,
{
    AssignmentExpressionView {
        left: target_view(assign.left),
        right: expression_view(assign.right),
    }
}

pub open spec fn function_view(f: Function) -> FunctionView
    decreases f,
{
    FunctionView { params: identifiers_view(f.params@), body: statements_view(f.body@) }
}

pub open spec fn private_field_view(member: PrivateFieldExpression) -> PrivateFieldExpressionView
    decreases member,
{
    PrivateFieldExpressionView { object: expression_view(member.object), field: member.field@ }
}

pub open spec fn private_in_view(test: PrivateInExpression) -> PrivateInExpressionView
    decreases test,
{
    PrivateInExpressionView { left: test.left@, right: expression_view(test.right) }
}

pub open spec fn target_view(target: AssignmentTarget) -> AssignmentTargetView
    decreases target,
{
    match target {
        AssignmentTarget::Identifier(identifier) => AssignmentTargetView::Identifier(
            identifier_view(identifier),
        ),
        AssignmentTarget::PrivateField(member) => AssignmentTargetView::PrivateField(
            Box::new(private_field_view(*member)),
        ),
        AssignmentTarget::Array(v) => AssignmentTargetView::Array(targets_view(v@)),
        AssignmentTarget::Object(v) => AssignmentTargetView::Object(properties_view(v@)),
    }
}

pub open spec fn targets_view(s: Seq<AssignmentTarget>) -> Seq<AssignmentTargetView>
    decreases s,
{
    Seq::new(
        s.len(),
        |i: int|
            if 0 <= i < s.len() {
                target_view(s[i])
            } else {
                AssignmentTargetView::Array(Seq::empty())
            },
    )
}

pub open spec fn property_view(property: AssignmentTargetProperty) -> AssignmentTargetPropertyView
    decreases property,
{
    AssignmentTargetPropertyView { key: property.key@, binding: target_view(property.binding) }
}

pub open spec fn properties_view(s: Seq<AssignmentTargetProperty>) -> Seq<
    AssignmentTargetPropertyView,
>
    decreases s,
{
    Seq::new(
        s.len(),
        |i: int|
            if 0 <= i < s.len() {
                property_view(s[i])
            } else {
                AssignmentTargetPropertyView {
                    key: Seq::empty(),
                    binding: AssignmentTargetView::Array(Seq::empty()),
                }
            },
    )
}

pub open spec fn statement_view(statement: Statement) -> StatementView
    decreases statement,
{
    match statement {
        Statement::Source(id) => StatementView::Source(id),
        Statement::ExpressionStatement(span, e) => StatementView::ExpressionStatement(
            span,
            expression_view(e),
        ),
        Statement::ReturnStatement(e) => StatementView::ReturnStatement(expression_view(e)),
        Statement::VariableDeclaration(binding, init) => StatementView::VariableDeclaration(
            identifier_view(binding),
            match init {
                Some(e) => Some(expression_view(e)),
                None => None,
            },
        ),
        Statement::ClassDeclaration(class) => StatementView::ClassDeclaration(
            Box::new(class_view(*class)),
        ),
    }
}

pub open spec fn statements_view(s: Seq<Statement>) -> Seq<StatementView>
    decreases s,
{
    Seq::new(
        s.len(),
        |i: int|
            if 0 <= i < s.len() {
                statement_view(s[i])
            } else {
                StatementView::Source(0)
            },
    )
}

pub open spec fn class_view(class: Class) -> ClassView
    decreases class,
{
    ClassView {
        source: class.source,
        class_type: class.class_type,
        name: match class.name {
            Some(name) => Some(name@),
            None => None,
        },
        decorators: decorators_view(class.decorators@),
        super_class: match class.super_class {
            Some(e) => Some(expression_view(e)),
            None => None,
        },
        body: elements_view(class.body@),
    }
}

pub open spec fn decorator_view(decorator: Decorator) -> DecoratorView
    decreases decorator,
{
    DecoratorView { span: decorator.span, expression: expression_view(decorator.expression) }
}

pub open spec fn decorators_view(s: Seq<Decorator>) -> Seq<DecoratorView>
    decreases s,
{
    Seq::new(
        s.len(),
        |i: int|
            if 0 <= i < s.len() {
                decorator_view(s[i])
            } else {
                DecoratorView {
                    span: Span { start: 0, end: 0 },
                    expression: ExpressionView::NullLiteral,
                }
            },
    )
}

pub open spec fn element_view(element: ClassElement) -> ClassElementView
    decreases element,
{
    match element {
        ClassElement::Source(id) => ClassElementView::Source(id),
        ClassElement::MethodDefinition(method) => ClassElementView::MethodDefinition(
            method_view(method),
        ),
        ClassElement::PropertyDefinition(property) => ClassElementView::PropertyDefinition(
            field_view(property),
        ),
        ClassElement::AccessorProperty(accessor) => ClassElementView::AccessorProperty(
            accessor_view(accessor),
        ),
    }
}

pub open spec fn elements_view(s: Seq<ClassElement>) -> Seq<ClassElementView>
    decreases s,
{
    Seq::new(
        s.len(),
        |i: int|
            if 0 <= i < s.len() {
                element_view(s[i])
            } else {
                ClassElementView::Source(0)
            },
    )
}

pub open spec fn method_view(method: MethodDefinition) -> MethodDefinitionView
    decreases method,
{
    MethodDefinitionView {
        source: method.source,
        kind: method.kind,
        is_static: method.is_static,
        decorators: decorators_view(method.decorators@),
        key: property_key_view(method.key),
        body: match method.body {
            Some(statements) => Some(statements_view(statements@)),
            None => None,
        },
    }
}

pub open spec fn field_view(property: PropertyDefinition) -> PropertyDefinitionView
    decreases property,
{
    PropertyDefinitionView {
        source: property.source,
        is_abstract: property.is_abstract,
        is_static: property.is_static,
        decorators: decorators_view(property.decorators@),
        key: property_key_view(property.key),
        value: match property.value {
            Some(e) => Some(expression_view(e)),
            None => None,
        },
    }
}

pub open spec fn accessor_view(accessor: AccessorProperty) -> AccessorPropertyView
    decreases accessor,
{
    AccessorPropertyView {
        source: accessor.source,
        is_static: accessor.is_static,
        decorators: decorators_view(accessor.decorators@),
        key: property_key_view(accessor.key),
        value: match accessor.value {
            Some(e) => Some(expression_view(e)),
            None => None,
        },
    }
}

impl View for BoundIdentifier {
    type V = BoundIdentifierView;

    open spec fn view(&self) -> BoundIdentifierView {
        BoundIdentifierView { name: self.name@, symbol_id: self.symbol_id as nat }
    }
}

impl View for Identifier {
    type V = IdentifierView;

    open spec fn view(&self) -> IdentifierView {
        identifier_view(*self)
    }
}

impl View for Expression {
    type V = ExpressionView;

    open spec fn view(&self) -> ExpressionView {
        expression_view(*self)
    }
}

impl View for AssignmentTarget {
    type V = AssignmentTargetView;

    open spec fn view(&self) -> AssignmentTargetView {
        target_view(*self)
    }
}

impl View for Statement {
    type V = StatementView;

    open spec fn view(&self) -> StatementView {
        statement_view(*self)
    }
}

impl View for Class {
    type V = ClassView;

    open spec fn view(&self) -> ClassView {
        class_view(*self)
    }
}

impl View for ClassElement {
    type V = ClassElementView;

    open spec fn view(&self) -> ClassElementView {
        element_view(*self)
    }
}

impl View for PropertyKey {
    type V = PropertyKeyView;

    open spec fn view(&self) -> PropertyKeyView {
        property_key_view(*self)
    }
}

impl View for Program {
    type V = ProgramView;

    open spec fn view(&self) -> ProgramView {
        ProgramView { body: statements_view(self.body@) }
    }
}

} // verus!
