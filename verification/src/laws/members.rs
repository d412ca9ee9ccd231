//! What becomes of the members of a class, and what the helper is told of them.
use crate::ast::{Helper, MethodDefinitionKind, Span};
use crate::context::Supply;
use crate::decorator::kinds::{accessor_kind, field_kind, helper_of, method_kind};
use crate::decorator::members::{array_of, description, is_decorated, key_name, merged};
use crate::decorator::transform::class_stripped;
use crate::decorator::DecoratorVersion;
use crate::model::{
    AssignmentTargetView, ClassElementView, ClassView, DecoratorView, ExpressionView,
    IdentifierView, PropertyKeyView, StatementView,
};
use vstd::prelude::*;

verus! {

/// Whether a member is one whose decorators are applied: a method, a getter or a setter, a field
/// that is not abstract, or an accessor, with a decorator.
pub open spec fn is_applied(member: ClassElementView) -> bool {
    match member {
        ClassElementView::Source(_) => false,
        ClassElementView::MethodDefinition(m) => m.decorators.len() > 0 && (m.kind
            == MethodDefinitionKind::Method || m.kind == MethodDefinitionKind::Getter || m.kind
            == MethodDefinitionKind::Setter),
        ClassElementView::PropertyDefinition(p) => p.decorators.len() > 0 && !p.is_abstract,
        ClassElementView::AccessorProperty(a) => a.decorators.len() > 0,
    }
}

/// A class counts as decorated if and only if it has a decorator itself or one of its methods,
/// fields or accessors has one.
pub proof fn decorated_classes_are_found(class: ClassView)
    ensures
        is_decorated(class) <==> {
            ||| class.decorators.len() > 0
            ||| exists|i: int|
                0 <= i < class.body.len() && match #[trigger] class.body[i] {
                    ClassElementView::Source(_) => false,
                    ClassElementView::MethodDefinition(m) => m.decorators.len() > 0,
                    ClassElementView::PropertyDefinition(p) => p.decorators.len() > 0,
                    ClassElementView::AccessorProperty(a) => a.decorators.len() > 0,
                }
        },
{
    if is_decorated(class) && class.decorators.len() == 0 {
        let i = choose|i: int|
            0 <= i < class.body.len() && crate::decorator::members::decorators_of(
                #[trigger] class.body[i],
            ).len() > 0;
        assert(0 <= i < class.body.len());
    }
}

/// Methods, getters, setters, accessors and fields lose their decorators, whatever these are. Only a
/// constructor and an abstract property keep theirs. Of each member all else stays, and so do the
/// number and the order of the members. The class loses its own decorators and keeps its name.
pub proof fn decorated_members_lose_their_decorators(class: ClassView, supply: Supply, i: int)
    requires
        0 <= i < class.body.len(),
    ensures
        ({
            let after = class_stripped(class, supply);
            &&& after.body.len() == class.body.len()
            &&& after.decorators.len() == 0
            &&& after.source == class.source
            &&& after.class_type == class.class_type
            &&& after.name == class.name
            &&& match class.body[i] {
                ClassElementView::Source(n) => after.body[i] == ClassElementView::Source(n),
                ClassElementView::MethodDefinition(m) => {
                    &&& after.body[i] matches ClassElementView::MethodDefinition(a)
                    &&& a.source == m.source
                    &&& a.kind == m.kind
                    &&& a.is_static == m.is_static
                    &&& a.key == m.key
                    &&& a.body == m.body
                    &&& m.kind == MethodDefinitionKind::Constructor ==> a.decorators == m.decorators
                    &&& m.kind == MethodDefinitionKind::Method ==> a.decorators.len() == 0
                    &&& m.kind == MethodDefinitionKind::Getter ==> a.decorators.len() == 0
                    &&& m.kind == MethodDefinitionKind::Setter ==> a.decorators.len() == 0
                },
                ClassElementView::PropertyDefinition(p) => {
                    &&& after.body[i] matches ClassElementView::PropertyDefinition(a)
                    &&& a.source == p.source
                    &&& a.is_abstract == p.is_abstract
                    &&& a.is_static == p.is_static
                    &&& a.key == p.key
                    &&& a.value == p.value
                    &&& p.is_abstract ==> a.decorators == p.decorators
                    &&& !p.is_abstract ==> a.decorators.len() == 0
                },
                ClassElementView::AccessorProperty(c) => {
                    &&& after.body[i] matches ClassElementView::AccessorProperty(a)
                    &&& a.source == c.source
                    &&& a.is_static == c.is_static
                    &&& a.key == c.key
                    &&& a.value == c.value
                    &&& a.decorators.len() == 0
                },
            }
        }),
{
}

/// No decorator of a member is lost: one stands alone, and of several all stand in an array, in
/// their order.
pub proof fn decorators_are_kept_together(decorators: Seq<DecoratorView>, i: int)
    ensures
        merged(decorators) is Some <==> decorators.len() > 0,
        decorators.len() == 1 ==> merged(decorators) == Some(decorators[0].expression),
        decorators.len() > 1 ==> {
            &&& merged(decorators) matches Some(ExpressionView::ArrayExpression(list))
            &&& list.len() == decorators.len()
            &&& 0 <= i < decorators.len() ==> list[i] == decorators[i].expression
        },
{
}

/// An array has one element in each place: the one given for it, or `null`.
pub proof fn arrays_have_null_for_what_is_missing(
    elements: Seq<Option<ExpressionView>>,
    i: int,
)
    ensures
        ({
            &&& array_of(elements) matches ExpressionView::ArrayExpression(list)
            &&& list.len() == elements.len()
            &&& 0 <= i < elements.len() ==> match elements[i] {
                Some(e) => list[i] == e,
                None => list[i] is NullLiteral,
            }
        }),
{
}

/// The name of a key is that of the identifier, public or private, and empty for any other key.
pub proof fn keys_are_named(name: Seq<char>)
    ensures
        key_name(PropertyKeyView::StaticIdentifier(name)) == name,
        key_name(PropertyKeyView::PrivateIdentifier(name)) == name,
        key_name(PropertyKeyView::Other).len() == 0,
{
    reveal_strlit("");
}

/// The numbers of the kinds. In the later version a static member has eight more than an instance
/// member, in the earlier one five more.
pub proof fn kinds_have_their_numbers()
    ensures
        field_kind(DecoratorVersion::V202311, false) == 0,
        accessor_kind(DecoratorVersion::V202311, false) == 1,
        method_kind(DecoratorVersion::V202311, false, MethodDefinitionKind::Method) == 2,
        method_kind(DecoratorVersion::V202311, false, MethodDefinitionKind::Getter) == 3,
        method_kind(DecoratorVersion::V202311, false, MethodDefinitionKind::Setter) == 4,
        field_kind(DecoratorVersion::V202311, true) == 8,
        accessor_kind(DecoratorVersion::V202311, true) == 9,
        method_kind(DecoratorVersion::V202311, true, MethodDefinitionKind::Method) == 10,
        method_kind(DecoratorVersion::V202311, true, MethodDefinitionKind::Getter) == 11,
        method_kind(DecoratorVersion::V202311, true, MethodDefinitionKind::Setter) == 12,
        field_kind(DecoratorVersion::V202203, false) == 0,
        accessor_kind(DecoratorVersion::V202203, false) == 1,
        method_kind(DecoratorVersion::V202203, false, MethodDefinitionKind::Method) == 2,
        method_kind(DecoratorVersion::V202203, false, MethodDefinitionKind::Getter) == 3,
        method_kind(DecoratorVersion::V202203, false, MethodDefinitionKind::Setter) == 4,
        field_kind(DecoratorVersion::V202203, true) == 5,
        accessor_kind(DecoratorVersion::V202203, true) == 6,
        method_kind(DecoratorVersion::V202203, true, MethodDefinitionKind::Method) == 7,
        method_kind(DecoratorVersion::V202203, true, MethodDefinitionKind::Getter) == 8,
        method_kind(DecoratorVersion::V202203, true, MethodDefinitionKind::Setter) == 9,
        method_kind(DecoratorVersion::V202311, false, MethodDefinitionKind::Constructor) == 0,
        method_kind(DecoratorVersion::V202311, true, MethodDefinitionKind::Constructor) == 8,
        method_kind(DecoratorVersion::V202203, false, MethodDefinitionKind::Constructor) == 0,
        method_kind(DecoratorVersion::V202203, true, MethodDefinitionKind::Constructor) == 0,
        helper_of(DecoratorVersion::V202311) == Helper::ApplyDecs2311,
        helper_of(DecoratorVersion::V202203) == Helper::ApplyDecs2203R,
{
}

/// Whether an expression is what stands for the decorators of a member: the only one, or an array
/// of all of them in their order.
pub open spec fn stands_for(e: ExpressionView, decorators: Seq<DecoratorView>) -> bool {
    if decorators.len() == 1 {
        e == decorators[0].expression
    } else {
        &&& e matches ExpressionView::ArrayExpression(list)
        &&& list.len() == decorators.len()
        &&& forall|i: int|
            0 <= i < decorators.len() ==> #[trigger] list[i] == decorators[i].expression
    }
}

/// Whether an expression is the name of a key.
pub open spec fn names(e: ExpressionView, key: PropertyKeyView) -> bool {
    match key {
        PropertyKeyView::StaticIdentifier(name) => e == ExpressionView::StringLiteral(name),
        PropertyKeyView::PrivateIdentifier(name) => e == ExpressionView::StringLiteral(name),
        PropertyKeyView::Other => e == ExpressionView::StringLiteral(Seq::empty()),
    }
}

/// Whether an identifier is this name, tied to no variable.
pub open spec fn is_bare(id: IdentifierView, name: Seq<char>) -> bool {
    id.name == name && id.symbol_id is None && id.reference_id is None
}

/// Whether a function takes the object with the field as its first parameter, `_this`, as it does in
/// the later version, or as its receiver; and whether `e` is that object in its body.
pub open spec fn is_owner(version: DecoratorVersion, e: ExpressionView) -> bool {
    match version {
        DecoratorVersion::V202311 => e matches ExpressionView::Identifier(id) && is_bare(
            id,
            "_this"@,
        ),
        DecoratorVersion::V202203 => e is ThisExpression,
    }
}

/// Whether `e` is a function that returns the private field `name` of its owner.
pub open spec fn reads_field(version: DecoratorVersion, e: ExpressionView, name: Seq<char>) -> bool {
    &&& e matches ExpressionView::FunctionExpression(f)
    &&& match version {
        DecoratorVersion::V202311 => f.params.len() == 1 && is_bare(f.params[0], "_this"@),
        DecoratorVersion::V202203 => f.params.len() == 0,
    }
    &&& f.body.len() == 1
    &&& f.body[0] matches StatementView::ReturnStatement(
        ExpressionView::PrivateFieldExpression(field),
    )
    &&& is_owner(version, field.object)
    &&& field.field == name
}

/// Whether `e` is a function that assigns its last parameter, `_v`, to the private field `name` of
/// its owner, and does nothing else.
pub open spec fn writes_field(version: DecoratorVersion, e: ExpressionView, name: Seq<char>) -> bool {
    &&& e matches ExpressionView::FunctionExpression(f)
    &&& match version {
        DecoratorVersion::V202311 => {
            &&& f.params.len() == 2
            &&& is_bare(f.params[0], "_this"@)
            &&& is_bare(f.params[1], "_v"@)
        },
        DecoratorVersion::V202203 => f.params.len() == 1 && is_bare(f.params[0], "_v"@),
    }
    &&& f.body.len() == 1
    &&& f.body[0] matches StatementView::ExpressionStatement(
        span,
        ExpressionView::AssignmentExpression(assign),
    )
    &&& span == Span { start: 0, end: 0 }
    &&& assign.left matches AssignmentTargetView::PrivateField(field)
    &&& is_owner(version, field.object)
    &&& field.field == name
    &&& assign.right matches ExpressionView::Identifier(v)
    &&& is_bare(v, "_v"@)
}

/// Whether a list describes a member: its decorators, the number of its kind and its name. A private
/// field comes with a function that reads it and one that writes it, a private accessor with two
/// empty places, and nothing else follows.
pub open spec fn describes(
    version: DecoratorVersion,
    list: Seq<ExpressionView>,
    member: ClassElementView,
) -> bool {
    match member {
        ClassElementView::Source(_) => false,
        ClassElementView::MethodDefinition(m) => {
            &&& list.len() == 3
            &&& stands_for(list[0], m.decorators)
            &&& list[1] matches ExpressionView::NumericLiteral(n)
            &&& n == (match m.kind {
                MethodDefinitionKind::Method => 2int,
                MethodDefinitionKind::Getter => 3,
                MethodDefinitionKind::Setter => 4,
                MethodDefinitionKind::Constructor => -1,
            }) + static_part(version, m.is_static)
            &&& names(list[2], m.key)
        },
        ClassElementView::PropertyDefinition(p) => {
            &&& stands_for(list[0], p.decorators)
            &&& list[1] matches ExpressionView::NumericLiteral(n)
            &&& n == static_part(version, p.is_static)
            &&& names(list[2], p.key)
            &&& match p.key {
                PropertyKeyView::PrivateIdentifier(name) => {
                    &&& list.len() == 5
                    &&& reads_field(version, list[3], name)
                    &&& writes_field(version, list[4], name)
                },
                _ => list.len() == 3,
            }
        },
        ClassElementView::AccessorProperty(a) => {
            &&& stands_for(list[0], a.decorators)
            &&& list[1] matches ExpressionView::NumericLiteral(n)
            &&& n == 1 + static_part(version, a.is_static)
            &&& names(list[2], a.key)
            &&& match a.key {
                PropertyKeyView::PrivateIdentifier(_) => {
                    &&& list.len() == 5
                    &&& list[3] is NullLiteral
                    &&& list[4] is NullLiteral
                },
                _ => list.len() == 3,
            }
        },
    }
}

/// What the number of a static member has over that of an instance member.
pub open spec fn static_part(version: DecoratorVersion, is_static: bool) -> int {
    match (version, is_static) {
        (_, false) => 0,
        (DecoratorVersion::V202311, true) => 8,
        (DecoratorVersion::V202203, true) => 5,
    }
}

/// The helper is told of a member what it is to be told, for every member whose decorators are
/// applied.
pub proof fn members_are_described(version: DecoratorVersion, member: ClassElementView)
    requires
        is_applied(member),
    ensures
        ({
            &&& description(version, member) matches ExpressionView::ArrayExpression(list)
            &&& describes(version, list, member)
        }),
{
    reveal_strlit("");
    assert(""@ =~= Seq::empty());
}

} // verus!
