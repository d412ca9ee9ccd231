//! How the syntax tree is seen: whole, and in order.
use crate::ast::{
    Argument, AssignmentExpression, AssignmentTarget, AssignmentTargetProperty, BoundIdentifier,
    CallExpression, Class, ClassElement, Decorator, Expression, Function, Identifier,
    PrivateFieldExpression, PrivateInExpression, Program, PropertyKey, Statement,
};
use crate::decorator::visit::Insertions;
use crate::decorator::{options_view, vars_view};
use crate::model::{
    argument_view, arguments_view, assignment_view, call_view, decorator_view, decorators_view,
    elements_view, expressions_view, function_view, identifiers_view, private_field_view,
    private_in_view, properties_view, property_view, statements_view, targets_view, ArgumentView,
    AssignmentTargetView, ClassElementView, ClassView, ExpressionView, PropertyKeyView,
    StatementView,
};
use vstd::prelude::*;

verus! {

/// Lists are seen item by item, in order.
pub proof fn lists_are_seen_in_order(
    expressions: Seq<Expression>,
    arguments: Seq<Argument>,
    targets: Seq<AssignmentTarget>,
    properties: Seq<AssignmentTargetProperty>,
    statements: Seq<Statement>,
    decorators: Seq<Decorator>,
    elements: Seq<ClassElement>,
    identifiers: Seq<Identifier>,
    i: int,
)
    ensures
        expressions_view(expressions).len() == expressions.len(),
        0 <= i < expressions.len() ==> expressions_view(expressions)[i] == expressions[i]@,
        arguments_view(arguments).len() == arguments.len(),
        0 <= i < arguments.len() ==> arguments_view(arguments)[i] == argument_view(arguments[i]),
        targets_view(targets).len() == targets.len(),
        0 <= i < targets.len() ==> targets_view(targets)[i] == targets[i]@,
        properties_view(properties).len() == properties.len(),
        0 <= i < properties.len() ==> {
            let property = properties_view(properties)[i];
            property.key == properties[i].key@ && property.binding == properties[i].binding@
        },
        statements_view(statements).len() == statements.len(),
        0 <= i < statements.len() ==> statements_view(statements)[i] == statements[i]@,
        decorators_view(decorators).len() == decorators.len(),
        0 <= i < decorators.len() ==> {
            let decorator = decorators_view(decorators)[i];
            decorator.span == decorators[i].span && decorator.expression
                == decorators[i].expression@
        },
        elements_view(elements).len() == elements.len(),
        0 <= i < elements.len() ==> elements_view(elements)[i] == elements[i]@,
        identifiers_view(identifiers).len() == identifiers.len(),
        0 <= i < identifiers.len() ==> identifiers_view(identifiers)[i] == identifiers[i]@,
{
    if 0 <= i < properties.len() {
        assert(properties_view(properties)[i] == property_view(properties[i]));
    }
    if 0 <= i < decorators.len() {
        assert(decorators_view(decorators)[i] == decorator_view(decorators[i]));
    }
}

/// Lists of what may be missing, and of variables with their values, are seen item by item too.
pub proof fn pending_lists_are_seen_in_order(
    options: Seq<Option<Expression>>,
    vars: Seq<(BoundIdentifier, Option<Expression>)>,
    i: int,
)
    ensures
        options_view(options).len() == options.len(),
        0 <= i < options.len() ==> match options[i] {
            Some(e) => options_view(options)[i] == Some(e@),
            None => options_view(options)[i] is None,
        },
        vars_view(vars).len() == vars.len(),
        0 <= i < vars.len() ==> {
            &&& vars_view(vars)[i].0.name == vars[i].0.name@
            &&& vars_view(vars)[i].0.symbol_id == vars[i].0.symbol_id
            &&& match vars[i].1 {
                Some(e) => vars_view(vars)[i].1 == Some(e@),
                None => vars_view(vars)[i].1 is None,
            }
        },
{
}

/// A class is seen with all its parts.
pub proof fn classes_are_seen_whole(class: Class)
    ensures
        class@ == (ClassView {
            source: class.source,
            class_type: class.class_type,
            name: class@.name,
            decorators: decorators_view(class.decorators@),
            super_class: class@.super_class,
            body: elements_view(class.body@),
        }),
        match class.name {
            Some(name) => class@.name == Some(name@),
            None => class@.name is None,
        },
        match class.super_class {
            Some(e) => class@.super_class == Some(e@),
            None => class@.super_class is None,
        },
{
}

/// A member is seen as what it is, with all its parts.
pub proof fn members_are_seen_whole(element: ClassElement)
    ensures
        match element {
            ClassElement::Source(id) => element@ == ClassElementView::Source(id),
            ClassElement::MethodDefinition(m) => {
                &&& element@ matches ClassElementView::MethodDefinition(v)
                &&& v.source == m.source
                &&& v.kind == m.kind
                &&& v.is_static == m.is_static
                &&& v.decorators == decorators_view(m.decorators@)
                &&& v.key == m.key@
                &&& match m.body {
                    Some(statements) => v.body == Some(statements_view(statements@)),
                    None => v.body is None,
                }
            },
            ClassElement::PropertyDefinition(p) => {
                &&& element@ matches ClassElementView::PropertyDefinition(v)
                &&& v.source == p.source
                &&& v.is_abstract == p.is_abstract
                &&& v.is_static == p.is_static
                &&& v.decorators == decorators_view(p.decorators@)
                &&& v.key == p.key@
                &&& match p.value {
                    Some(e) => v.value == Some(e@),
                    None => v.value is None,
                }
            },
            ClassElement::AccessorProperty(a) => {
                &&& element@ matches ClassElementView::AccessorProperty(v)
                &&& v.source == a.source
                &&& v.is_static == a.is_static
                &&& v.decorators == decorators_view(a.decorators@)
                &&& v.key == a.key@
                &&& match a.value {
                    Some(e) => v.value == Some(e@),
                    None => v.value is None,
                }
            },
        },
{
}

/// Names are seen as they are, with what they are tied to.
pub proof fn names_are_seen_whole(identifier: Identifier, key: PropertyKey)
    ensures
        identifier@.name == identifier.name@,
        match identifier.symbol_id {
            Some(id) => identifier@.symbol_id == Some(id as nat),
            None => identifier@.symbol_id is None,
        },
        match identifier.reference_id {
            Some(id) => identifier@.reference_id == Some(id as nat),
            None => identifier@.reference_id is None,
        },
        match key {
            PropertyKey::StaticIdentifier(name) => key@ == PropertyKeyView::StaticIdentifier(name@),
            PropertyKey::PrivateIdentifier(name) => key@ == PropertyKeyView::PrivateIdentifier(
                name@,
            ),
            PropertyKey::Other => key@ is Other,
        },
{
}

/// An expression is seen as what it is.
pub proof fn expressions_are_seen_whole(e: Expression)
    ensures
        match e {
            Expression::Source(id) => e@ == ExpressionView::Source(id),
            Expression::NullLiteral => e@ is NullLiteral,
            Expression::NumericLiteral(n) => e@ == ExpressionView::NumericLiteral(n),
            Expression::StringLiteral(s) => e@ == ExpressionView::StringLiteral(s@),
            Expression::ThisExpression => e@ is ThisExpression,
            Expression::Super(span) => e@ == ExpressionView::Super(span),
            Expression::Helper(helper) => e@ == ExpressionView::Helper(helper),
            Expression::Identifier(id) => e@ == ExpressionView::Identifier(id@),
            Expression::ArrayExpression(v) => e@ == ExpressionView::ArrayExpression(
                expressions_view(v@),
            ),
            Expression::SequenceExpression(v) => e@ == ExpressionView::SequenceExpression(
                expressions_view(v@),
            ),
            Expression::CallExpression(call) => e@ matches ExpressionView::CallExpression(v) && *v
                == call_view(*call),
            Expression::AssignmentExpression(assign) => e@
                matches ExpressionView::AssignmentExpression(v) && *v == assignment_view(*assign),
            Expression::FunctionExpression(f) => e@ == ExpressionView::FunctionExpression(
                function_view(f),
            ),
            Expression::ArrowFunctionExpression(f) => e@ == ExpressionView::ArrowFunctionExpression(
                function_view(f),
            ),
            Expression::PrivateFieldExpression(member) => e@
                matches ExpressionView::PrivateFieldExpression(v) && *v == private_field_view(
                *member,
            ),
            Expression::PrivateInExpression(test) => e@
                matches ExpressionView::PrivateInExpression(v) && *v == private_in_view(*test),
            Expression::ClassExpression(class) => e@ matches ExpressionView::ClassExpression(v) && *v
                == class@,
            Expression::CloneIn(inner) => e@ matches ExpressionView::CloneIn(v) && *v == inner@,
        },
{
}

/// The parts of an expression are all seen.
pub proof fn parts_of_expressions_are_seen(
    call: CallExpression,
    argument: Argument,
    assign: AssignmentExpression,
    f: Function,
    member: PrivateFieldExpression,
    test: PrivateInExpression,
    target: AssignmentTarget,
)
    ensures
        call_view(call).source == call.source,
        call_view(call).span == call.span,
        call_view(call).callee == call.callee@,
        call_view(call).arguments == arguments_view(call.arguments@),
        match argument {
            Argument::Source(id) => argument_view(argument) == ArgumentView::Source(
                id,
            ),
            Argument::Expression(e) => argument_view(argument)
                == ArgumentView::Expression(e@),
        },
        assignment_view(assign).left == assign.left@,
        assignment_view(assign).right == assign.right@,
        function_view(f).params == identifiers_view(f.params@),
        function_view(f).body == statements_view(f.body@),
        private_field_view(member).object == member.object@,
        private_field_view(member).field == member.field@,
        private_in_view(test).left == test.left@,
        private_in_view(test).right == test.right@,
        match target {
            AssignmentTarget::Identifier(id) => target@ == AssignmentTargetView::Identifier(id@),
            AssignmentTarget::PrivateField(m) => target@ matches AssignmentTargetView::PrivateField(
                v,
            ) && *v == private_field_view(*m),
            AssignmentTarget::Array(v) => target@ == AssignmentTargetView::Array(targets_view(v@)),
            AssignmentTarget::Object(v) => target@ == AssignmentTargetView::Object(
                properties_view(v@),
            ),
        },
{
}

/// A statement is seen as what it is, and a program and what goes around a class as their
/// statements.
pub proof fn statements_are_seen_whole(s: Statement, program: Program, r: Insertions)
    ensures
        match s {
            Statement::Source(id) => s@ == StatementView::Source(id),
            Statement::ExpressionStatement(span, e) => s@ == StatementView::ExpressionStatement(
                span,
                e@,
            ),
            Statement::ReturnStatement(e) => s@ == StatementView::ReturnStatement(e@),
            Statement::VariableDeclaration(binding, init) => {
                &&& s@ matches StatementView::VariableDeclaration(b, v)
                &&& b == binding@
                &&& match init {
                    Some(e) => v == Some(e@),
                    None => v is None,
                }
            },
            Statement::ClassDeclaration(class) => s@ matches StatementView::ClassDeclaration(v) && *v
                == class@,
        },
        program@.body == statements_view(program.body@),
        r@.binding.name == r.binding.name@,
        r@.binding.symbol_id == r.binding.symbol_id,
        r@.before == statements_view(r.before@),
        r@.after == statements_view(r.after@),
{
}

} // verus!
