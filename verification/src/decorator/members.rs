//! What is said of a decorated member to the helper.
use super::kinds::{accessor_kind, field_kind, method_kind};
use super::{options_view, DecoratorVersion, Tc39Decorator};
use crate::ast::{
    AssignmentTarget, Class, ClassElement, Decorator, Expression, Function, Identifier,
    MethodDefinitionKind, PropertyKey, Statement,
};
use crate::builder::{
    assign_of, assignment, bare, bare_expression, bare_identifier, expression_statement,
    private_field, private_field_of, statement_of,
};
use crate::model::{
    accessor_view, decorator_view, decorators_view, element_view, expressions_view, field_view,
    function_view, identifiers_view, method_view, statement_view, AccessorPropertyView,
    AssignmentTargetView, ClassElementView, ClassView, DecoratorView, ExpressionView, FunctionView,
    IdentifierView, MethodDefinitionView, PropertyDefinitionView, PropertyKeyView, StatementView,
};
use vstd::prelude::*;

verus! {

pub open spec fn decorators_of(member: ClassElementView) -> Seq<DecoratorView> {
    match member {
        ClassElementView::Source(_) => Seq::empty(),
        ClassElementView::MethodDefinition(method) => method.decorators,
        ClassElementView::PropertyDefinition(property) => property.decorators,
        ClassElementView::AccessorProperty(accessor) => accessor.decorators,
    }
}

/// Whether the class or one of its members has a decorator.
pub open spec fn is_decorated(class: ClassView) -> bool {
    ||| class.decorators.len() > 0
    ||| exists|i: int| 0 <= i < class.body.len() && decorators_of(#[trigger] class.body[i]).len() > 0
}

/// Whether the transform takes the decorators off a member. A constructor and an abstract property
/// keep theirs.
pub open spec fn is_target(member: ClassElementView) -> bool {
    decorators_of(member).len() > 0 && match member {
        ClassElementView::Source(_) => false,
        ClassElementView::MethodDefinition(method) => method.kind
            != MethodDefinitionKind::Constructor,
        ClassElementView::PropertyDefinition(property) => !property.is_abstract,
        ClassElementView::AccessorProperty(_) => true,
    }
}

pub open spec fn is_static_member(member: ClassElementView) -> bool {
    match member {
        ClassElementView::Source(_) => false,
        ClassElementView::MethodDefinition(method) => method.is_static,
        ClassElementView::PropertyDefinition(property) => property.is_static,
        ClassElementView::AccessorProperty(accessor) => accessor.is_static,
    }
}

pub open spec fn is_field(member: ClassElementView) -> bool {
    member is PropertyDefinition
}

/// The member after the transform: a target without its decorators, any other member as it was.
pub open spec fn stripped(member: ClassElementView) -> ClassElementView {
    if !is_target(member) {
        member
    } else {
        match member {
            ClassElementView::Source(_) => member,
            ClassElementView::MethodDefinition(method) => ClassElementView::MethodDefinition(
                MethodDefinitionView { decorators: Seq::empty(), ..method },
            ),
            ClassElementView::PropertyDefinition(property) => ClassElementView::PropertyDefinition(
                PropertyDefinitionView { decorators: Seq::empty(), ..property },
            ),
            ClassElementView::AccessorProperty(accessor) => ClassElementView::AccessorProperty(
                AccessorPropertyView { decorators: Seq::empty(), ..accessor },
            ),
        }
    }
}

pub open spec fn decorator_expressions(decorators: Seq<DecoratorView>) -> Seq<ExpressionView> {
    decorators.map_values(|d: DecoratorView| d.expression)
}

/// One expression for all decorators of a member: the only one, or an array of them.
pub open spec fn merged(decorators: Seq<DecoratorView>) -> Option<ExpressionView> {
    if decorators.len() == 0 {
        None
    } else if decorators.len() == 1 {
        Some(decorators[0].expression)
    } else {
        Some(ExpressionView::ArrayExpression(decorator_expressions(decorators)))
    }
}

/// The name of a member. One that is only known at run time, or is no identifier, is left empty.
pub open spec fn key_name(key: PropertyKeyView) -> Seq<char> {
    match key {
        PropertyKeyView::StaticIdentifier(name) => name,
        PropertyKeyView::PrivateIdentifier(name) => name,
        PropertyKeyView::Other => ""@,
    }
}

/// The array literal of these elements, with `null` in the place of those that are missing.
pub open spec fn array_of(elements: Seq<Option<ExpressionView>>) -> ExpressionView {
    ExpressionView::ArrayExpression(
        elements.map_values(
            |e: Option<ExpressionView>|
                match e {
                    Some(e) => e,
                    None => ExpressionView::NullLiteral,
                },
        ),
    )
}

/// The object that an access function of a private field works on: its first parameter, `_this`,
/// in the later version, and its receiver in the earlier one.
pub open spec fn field_owner(version: DecoratorVersion) -> ExpressionView {
    match version {
        DecoratorVersion::V202311 => ExpressionView::Identifier(bare("_this"@)),
        DecoratorVersion::V202203 => ExpressionView::ThisExpression,
    }
}

pub open spec fn owner_params(version: DecoratorVersion) -> Seq<IdentifierView> {
    match version {
        DecoratorVersion::V202311 => seq![bare("_this"@)],
        DecoratorVersion::V202203 => Seq::empty(),
    }
}

/// A function that reads the private field `name`.
pub open spec fn private_getter(version: DecoratorVersion, name: Seq<char>) -> ExpressionView {
    ExpressionView::FunctionExpression(
        FunctionView {
            params: owner_params(version),
            body: seq![
                StatementView::ReturnStatement(
                    ExpressionView::PrivateFieldExpression(
                        Box::new(private_field_of(field_owner(version), name)),
                    ),
                ),
            ],
        },
    )
}

/// A function that writes its last parameter, `_v`, to the private field `name`.
pub open spec fn private_setter(version: DecoratorVersion, name: Seq<char>) -> ExpressionView {
    ExpressionView::FunctionExpression(
        FunctionView {
            params: owner_params(version).push(bare("_v"@)),
            body: seq![
                statement_of(
                    assign_of(
                        AssignmentTargetView::PrivateField(
                            Box::new(private_field_of(field_owner(version), name)),
                        ),
                        ExpressionView::Identifier(bare("_v"@)),
                    ),
                ),
            ],
        },
    )
}

/// What follows the name in the description of a member: for a private field the functions that
/// access it, for a private accessor two empty places.
pub open spec fn access_of(version: DecoratorVersion, member: ClassElementView) -> Seq<
    ExpressionView,
> {
    match member {
        ClassElementView::PropertyDefinition(property) => match property.key {
            PropertyKeyView::PrivateIdentifier(name) => seq![
                private_getter(version, name),
                private_setter(version, name),
            ],
            _ => Seq::empty(),
        },
        ClassElementView::AccessorProperty(accessor) => match accessor.key {
            PropertyKeyView::PrivateIdentifier(_) => seq![
                ExpressionView::NullLiteral,
                ExpressionView::NullLiteral,
            ],
            _ => Seq::empty(),
        },
        _ => Seq::empty(),
    }
}

pub open spec fn kind_of(version: DecoratorVersion, member: ClassElementView) -> int {
    match member {
        ClassElementView::Source(_) => 0,
        ClassElementView::MethodDefinition(method) => method_kind(
            version,
            method.is_static,
            method.kind,
        ),
        ClassElementView::PropertyDefinition(property) => field_kind(version, property.is_static),
        ClassElementView::AccessorProperty(accessor) => accessor_kind(version, accessor.is_static),
    }
}

pub open spec fn key_of(member: ClassElementView) -> PropertyKeyView {
    match member {
        ClassElementView::Source(_) => PropertyKeyView::Other,
        ClassElementView::MethodDefinition(method) => method.key,
        ClassElementView::PropertyDefinition(property) => property.key,
        ClassElementView::AccessorProperty(accessor) => accessor.key,
    }
}

/// The description of a decorated member: its decorators, its kind, its name, and the access to it
/// where it is private.
pub open spec fn description(
    version: DecoratorVersion,
    member: ClassElementView,
) -> ExpressionView {
    ExpressionView::ArrayExpression(
        seq![
            merged(decorators_of(member))->0,
            ExpressionView::NumericLiteral(kind_of(version, member) as i32),
            ExpressionView::StringLiteral(key_name(key_of(member))),
        ] + access_of(version, member),
    )
}

impl Tc39Decorator {
    /// Whether there is anything to transform in a class.
    pub fn has_any_decorators(class: &Class) -> (r: bool)
        ensures
            r == is_decorated(class@),
    {
        assert(class@.decorators.len() == class.decorators@.len());
        assert(class@.body.len() == class.body@.len());
        if !class.decorators.is_empty() {
            return true;
        }
        let mut i: usize = 0;
        while i < class.body.len()
            invariant
                class@.body.len() == class.body@.len(),
                class@.decorators.len() == 0,
                0 <= i <= class.body@.len(),
                forall|j: int| 0 <= j < i ==> decorators_of(#[trigger] class@.body[j]).len() == 0,
            decreases class.body@.len() - i,
        {
            assert(class@.body[i as int] == element_view(class.body@[i as int]));
            match &class.body[i] {
                ClassElement::MethodDefinition(m) => {
                    assert(method_view(*m).decorators.len() == m.decorators@.len());
                    if !m.decorators.is_empty() {
                        return true;
                    }
                },
                ClassElement::PropertyDefinition(p) => {
                    assert(field_view(*p).decorators.len() == p.decorators@.len());
                    if !p.decorators.is_empty() {
                        return true;
                    }
                },
                ClassElement::AccessorProperty(a) => {
                    assert(accessor_view(*a).decorators.len() == a.decorators@.len());
                    if !a.decorators.is_empty() {
                        return true;
                    }
                },
                ClassElement::Source(_) => {},
            }
            i += 1;
        }
        false
    }

    /// An array literal of these elements.
    pub fn build_array(&self, elems: Vec<Option<Expression>>) -> (r: Expression)
        ensures
            r@ == array_of(options_view(elems@)),
    {
        let mut arr: Vec<Expression> = Vec::new();
        let ghost all = elems@;
        for elem in it: elems.into_iter()
            invariant
                it.seq() == all,
                expressions_view(arr@).len() == it.index(),
                forall|j: int|
                    0 <= j < it.index() ==> #[trigger] expressions_view(arr@)[j] == match all[j] {
                        Some(e) => e@,
                        None => ExpressionView::NullLiteral,
                    },
        {
            let ghost before = arr@;
            let element = match elem {
                Some(e) => e,
                None => Expression::NullLiteral,
            };
            arr.push(element);
            assert(expressions_view(arr@) =~= expressions_view(before).push(element@));
        }
        let r = Expression::ArrayExpression(arr);
        assert(array_of(options_view(all))->ArrayExpression_0 =~= expressions_view(arr@));
        r
    }

    /// One expression for all the decorators of a member.
    pub fn merge_decorators(decorators: Vec<Decorator>) -> (r: Option<Expression>)
        ensures
            match r {
                Some(e) => merged(decorators_view(decorators@)) == Some(e@),
                None => merged(decorators_view(decorators@)) is None,
            },
    {
        let mut decorators = decorators;
        let ghost all = decorators@;
        if decorators.is_empty() {
            return None;
        }
        if decorators.len() == 1 {
            let first = decorators.remove(0);
            assert(decorators_view(all)[0] == decorator_view(first));
            return Some(first.expression);
        }
        let mut elems: Vec<Expression> = Vec::new();
        for dec in it: decorators.into_iter()
            invariant
                it.seq() == all,
                expressions_view(elems@).len() == it.index(),
                forall|j: int|
                    0 <= j < it.index() ==> #[trigger] expressions_view(elems@)[j]
                        == all[j].expression@,
        {
            let ghost before = elems@;
            elems.push(dec.expression);
            assert(expressions_view(elems@) =~= expressions_view(before).push(dec.expression@));
        }
        assert(decorator_expressions(decorators_view(all)) =~= expressions_view(elems@)) by {
            assert forall|j: int| 0 <= j < all.len() implies #[trigger] decorators_view(
                all,
            )[j].expression == all[j].expression@ by {
                assert(decorators_view(all)[j] == decorator_view(all[j]));
            }
        }
        Some(Expression::ArrayExpression(elems))
    }

    /// The name of a member as a string literal.
    pub fn prop_key_to_expr(key: &PropertyKey) -> (r: Expression)
        ensures
            r@ == ExpressionView::StringLiteral(key_name(key@)),
    {
        match key {
            PropertyKey::StaticIdentifier(name) => Expression::StringLiteral(name.clone()),
            PropertyKey::PrivateIdentifier(name) => Expression::StringLiteral(name.clone()),
            PropertyKey::Other => Expression::StringLiteral("".to_owned()),
        }
    }

    fn field_owner(&self) -> (r: Expression)
        ensures
            r@ == field_owner(self@.version),
    {
        if self.is_2023_11() {
            bare_expression("_this")
        } else {
            Expression::ThisExpression
        }
    }

    fn owner_params(&self) -> (r: Vec<Identifier>)
        ensures
            identifiers_view(r@) == owner_params(self@.version),
    {
        let mut params: Vec<Identifier> = Vec::new();
        if self.is_2023_11() {
            params.push(bare_identifier("_this"));
        }
        assert(identifiers_view(params@) =~= owner_params(self@.version));
        params
    }

    pub(super) fn private_getter(&self, name: &str) -> (r: Expression)
        ensures
            r@ == private_getter(self@.version, name@),
    {
        let member = private_field(self.field_owner(), name);
        let value = Expression::PrivateFieldExpression(Box::new(member));
        let mut body: Vec<Statement> = Vec::new();
        body.push(Statement::ReturnStatement(value));
        let params = self.owner_params();
        let function = Function { params, body };
        assert(statement_view(body@[0]) == StatementView::ReturnStatement(value@));
        assert(function_view(function).body =~= seq![StatementView::ReturnStatement(value@)]);
        Expression::FunctionExpression(function)
    }

    pub(super) fn private_setter(&self, name: &str) -> (r: Expression)
        ensures
            r@ == private_setter(self@.version, name@),
    {
        let target = AssignmentTarget::PrivateField(
            Box::new(private_field(self.field_owner(), name)),
        );
        let statement = expression_statement(assignment(target, bare_expression("_v")));
        let mut body: Vec<Statement> = Vec::new();
        body.push(statement);
        let mut params = self.owner_params();
        let ghost owners = params@;
        params.push(bare_identifier("_v"));
        assert(identifiers_view(params@) =~= identifiers_view(owners).push(bare("_v"@)));
        let function = Function { params, body };
        assert(function_view(function).body =~= seq![statement@]);
        Expression::FunctionExpression(function)
    }

    /// Puts the first parts of the description of a member together.
    pub(super) fn describe(decorators: Vec<Decorator>, kind: i32, key: &PropertyKey) -> (r: Vec<
        Option<Expression>,
    >)
        requires
            decorators@.len() > 0,
        ensures
            options_view(r@) == seq![
                merged(decorators_view(decorators@)),
                Some(ExpressionView::NumericLiteral(kind)),
                Some(ExpressionView::StringLiteral(key_name(key@))),
            ],
    {
        let mut elems: Vec<Option<Expression>> = Vec::new();
        let merged_expression = Self::merge_decorators(decorators);
        if let Some(m) = merged_expression {
            elems.push(Some(m));
        }
        elems.push(Some(Expression::NumericLiteral(kind)));
        elems.push(Some(Self::prop_key_to_expr(key)));
        assert(options_view(elems@) =~= seq![
            merged(decorators_view(decorators@)),
            Some(ExpressionView::NumericLiteral(kind)),
            Some(ExpressionView::StringLiteral(key_name(key@))),
        ]);
        elems
    }
}

} // verus!
