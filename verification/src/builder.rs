//! Constructors of the nodes that the transform builds, each with its model.
use crate::ast::{
    Argument, AssignmentExpression, AssignmentTarget, AssignmentTargetProperty, BoundIdentifier,
    CallExpression, Expression, Identifier, PrivateFieldExpression, Span, Statement,
};
use crate::context::{
    can_refer, can_refer_to, create_reference, issued, lemma_issued_nothing, read_entries,
    read_entry, references, room, scopes, write_entry, Entry, READ, WRITE,
};
use crate::model::{
    arguments_view, assignment_view, call_view, private_field_view, property_view, ArgumentView,
    AssignmentExpressionView, AssignmentTargetPropertyView, AssignmentTargetView,
    BoundIdentifierView, CallExpressionView, ExpressionView, IdentifierView,
    PrivateFieldExpressionView, StatementView,
};
use oxc_traverse::TraverseCtx;
use vstd::prelude::*;

verus! {

pub open spec fn unspanned() -> Span {
    Span { start: 0, end: 0 }
}

/// The variable itself, as an identifier that declares it.
pub open spec fn bound(binding: BoundIdentifierView) -> IdentifierView {
    IdentifierView {
        name: binding.name,
        symbol_id: Some(binding.symbol_id),
        reference_id: None,
    }
}

/// The variable in the place of the reference with this number.
pub open spec fn referring(binding: BoundIdentifierView, reference_id: nat) -> IdentifierView {
    IdentifierView {
        name: binding.name,
        symbol_id: Some(binding.symbol_id),
        reference_id: Some(reference_id),
    }
}

/// A name that is tied to no variable.
pub open spec fn bare(name: Seq<char>) -> IdentifierView {
    IdentifierView { name, symbol_id: None, reference_id: None }
}

/// The value of a variable.
pub open spec fn read_of(binding: BoundIdentifierView, reference_id: nat) -> ExpressionView {
    ExpressionView::Identifier(referring(binding, reference_id))
}

/// A variable as the target of an assignment.
pub open spec fn write_of(binding: BoundIdentifierView, reference_id: nat) -> AssignmentTargetView {
    AssignmentTargetView::Identifier(referring(binding, reference_id))
}

/// The value of a variable, or `this` where there is none.
pub open spec fn read_or_this(
    binding: Option<BoundIdentifierView>,
    reference_id: nat,
) -> ExpressionView {
    match binding {
        Some(b) => read_of(b, reference_id),
        None => ExpressionView::ThisExpression,
    }
}

/// The view of a variable that may be missing.
pub open spec fn ref_view(binding: Option<&BoundIdentifier>) -> Option<BoundIdentifierView> {
    match binding {
        Some(b) => Some(b@),
        None => None,
    }
}

pub open spec fn call_of(callee: ExpressionView, arguments: Seq<ArgumentView>) -> ExpressionView {
    ExpressionView::CallExpression(
        Box::new(CallExpressionView { source: None, span: unspanned(), callee, arguments }),
    )
}

/// `callee(argument)`
pub open spec fn call_with(callee: ExpressionView, argument: ExpressionView) -> ExpressionView {
    call_of(callee, seq![ArgumentView::Expression(argument)])
}

/// `left = right`
pub open spec fn assign_of(left: AssignmentTargetView, right: ExpressionView) -> ExpressionView {
    ExpressionView::AssignmentExpression(Box::new(AssignmentExpressionView { left, right }))
}

/// `expression;`
pub open spec fn statement_of(expression: ExpressionView) -> StatementView {
    StatementView::ExpressionStatement(unspanned(), expression)
}

/// `var binding = init;`
pub open spec fn var_of(
    binding: BoundIdentifierView,
    init: Option<ExpressionView>,
) -> StatementView {
    StatementView::VariableDeclaration(bound(binding), init)
}

/// `object.#field`
pub open spec fn private_field_of(
    object: ExpressionView,
    field: Seq<char>,
) -> PrivateFieldExpressionView {
    PrivateFieldExpressionView { object, field }
}

/// `{ key: binding }`
pub open spec fn property_of(
    key: Seq<char>,
    binding: AssignmentTargetView,
) -> AssignmentTargetPropertyView {
    AssignmentTargetPropertyView { key, binding }
}

impl BoundIdentifier {
    /// Another handle on the same variable.
    pub fn duplicate(&self) -> (r: BoundIdentifier)
        ensures
            r@ == self@,
    {
        BoundIdentifier { name: self.name.clone(), symbol_id: self.symbol_id }
    }

    pub(crate) fn identifier(&self) -> (r: Identifier)
        ensures
            r@ == bound(self@),
    {
        Identifier { name: self.name.clone(), symbol_id: Some(self.symbol_id), reference_id: None }
    }

    fn refer(&self, flags: u8, ctx: &mut TraverseCtx<'_, ()>) -> (r: Identifier)
        requires
            room(*old(ctx), 0, 1),
            can_refer(*old(ctx), self@, 1),
        ensures
            r@ == referring(self@, references(*old(ctx)).len()),
            issued(
                *old(ctx),
                *final(ctx),
                Seq::empty(),
                seq![Entry { symbol_id: self@.symbol_id, flags }],
            ),
            scopes(*final(ctx)) == scopes(*old(ctx)),
    {
        let reference_id: usize = create_reference(ctx, self, flags);
        Identifier {
            name: self.name.clone(),
            symbol_id: Some(self.symbol_id),
            reference_id: Some(reference_id),
        }
    }

    pub(crate) fn read(&self, ctx: &mut TraverseCtx<'_, ()>) -> (r: Expression)
        requires
            room(*old(ctx), 0, 1),
            can_refer(*old(ctx), self@, 1),
        ensures
            r@ == read_of(self@, references(*old(ctx)).len()),
            issued(*old(ctx), *final(ctx), Seq::empty(), seq![read_entry(self@)]),
            scopes(*final(ctx)) == scopes(*old(ctx)),
    {
        Expression::Identifier(self.refer(READ, ctx))
    }

    pub(crate) fn write(&self, ctx: &mut TraverseCtx<'_, ()>) -> (r: AssignmentTarget)
        requires
            room(*old(ctx), 0, 1),
            can_refer(*old(ctx), self@, 1),
        ensures
            r@ == write_of(self@, references(*old(ctx)).len()),
            issued(*old(ctx), *final(ctx), Seq::empty(), seq![write_entry(self@)]),
            scopes(*final(ctx)) == scopes(*old(ctx)),
    {
        AssignmentTarget::Identifier(self.refer(WRITE, ctx))
    }
}

pub(crate) fn no_span() -> (r: Span)
    ensures
        r == unspanned(),
{
    Span { start: 0, end: 0 }
}

pub(crate) fn bare_identifier(name: &str) -> (r: Identifier)
    ensures
        r@ == bare(name@),
{
    Identifier { name: name.to_owned(), symbol_id: None, reference_id: None }
}

pub(crate) fn bare_expression(name: &str) -> (r: Expression)
    ensures
        r@ == ExpressionView::Identifier(bare(name@)),
{
    Expression::Identifier(bare_identifier(name))
}

pub(crate) fn read_or_this_expression(
    binding: Option<&BoundIdentifier>,
    ctx: &mut TraverseCtx<'_, ()>,
) -> (r: Expression)
    requires
        room(*old(ctx), 0, 1),
        can_refer_to(*old(ctx), ref_view(binding), 1),
    ensures
        r@ == read_or_this(ref_view(binding), references(*old(ctx)).len()),
        issued(*old(ctx), *final(ctx), Seq::empty(), read_entries(ref_view(binding))),
        scopes(*final(ctx)) == scopes(*old(ctx)),
{
    match binding {
        Some(b) => b.read(ctx),
        None => {
            proof {
                lemma_issued_nothing(*ctx);
            }
            Expression::ThisExpression
        },
    }
}

pub(crate) fn call(callee: Expression, arguments: Vec<Argument>) -> (r: Expression)
    ensures
        r@ == call_of(callee@, arguments_view(arguments@)),
{
    let call = CallExpression { source: None, span: no_span(), callee, arguments };
    assert(call_view(call).callee == callee@);
    Expression::CallExpression(Box::new(call))
}

pub(crate) fn call_one(callee: Expression, argument: Expression) -> (r: Expression)
    ensures
        r@ == call_with(callee@, argument@),
{
    let mut arguments: Vec<Argument> = Vec::new();
    arguments.push(Argument::Expression(argument));
    assert(arguments_view(arguments@) =~= seq![ArgumentView::Expression(argument@)]);
    call(callee, arguments)
}

pub(crate) fn assignment(left: AssignmentTarget, right: Expression) -> (r: Expression)
    ensures
        r@ == assign_of(left@, right@),
{
    let assign = AssignmentExpression { left, right };
    assert(assignment_view(assign).left == left@);
    Expression::AssignmentExpression(Box::new(assign))
}

pub(crate) fn expression_statement(expression: Expression) -> (r: Statement)
    ensures
        r@ == statement_of(expression@),
{
    Statement::ExpressionStatement(no_span(), expression)
}

pub(crate) fn var_declaration(binding: &BoundIdentifier, init: Option<Expression>) -> (r: Statement)
    ensures
        r@ == var_of(
            binding@,
            match init {
                Some(e) => Some(e@),
                None => None,
            },
        ),
{
    Statement::VariableDeclaration(binding.identifier(), init)
}

pub(crate) fn private_field(object: Expression, field: &str) -> (r: PrivateFieldExpression)
    ensures
        private_field_view(r) == private_field_of(object@, field@),
{
    PrivateFieldExpression { object, field: field.to_owned() }
}

pub(crate) fn property(key: &str, binding: AssignmentTarget) -> (r: AssignmentTargetProperty)
    ensures
        property_view(r) == property_of(key@, binding@),
{
    AssignmentTargetProperty { key: key.to_owned(), binding }
}

} // verus!
