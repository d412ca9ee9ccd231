//! The call that runs the initialisers of an instance.
use super::apply::{can_apply, consumed, consumed_entries, count, is_pending, lemma_can_apply};
use super::{ClassStateView, DecoratorVersion, Tc39Decorator, TransformView};
use crate::ast::{
    AccessorProperty, Argument, BoundIdentifier, Class, ClassElement, Expression, MethodDefinition,
    MethodDefinitionKind, MethodSource, PropertyDefinition, PropertyKey, Statement,
};
use crate::builder::{
    call, call_of, call_one, call_with, expression_statement, no_span, read_of, ref_view,
    statement_of, unspanned,
};
use crate::context::{
    create_child_scope_of_current, current_scope, handed_out, issued, lemma_issued_more,
    lemma_issued_nothing, read_entries, references, scope_room, scopes, Entry, Request,
    CONSTRUCTOR_SCOPE, STRICT_MODE,
};
use crate::model::{
    accessor_view, arguments_view, call_view, decorators_view, element_view, elements_view,
    expressions_view, field_view, method_view, statements_view, AccessorPropertyView,
    BoundIdentifierView, ClassElementView, ClassView, ExpressionView, MethodDefinitionView,
    PropertyDefinitionView, PropertyKeyView, StatementView,
};
use oxc_traverse::TraverseCtx;
use vstd::prelude::*;

verus! {

/// `init(this)`, copied.
pub open spec fn init_call(init: BoundIdentifierView, reference_id: nat) -> ExpressionView {
    ExpressionView::CloneIn(
        Box::new(call_with(read_of(init, reference_id), ExpressionView::ThisExpression)),
    )
}

/// Whether the initialisers can run with the value of a member: it is an instance field or accessor
/// that has a value.
pub open spec fn has_instance_value(member: ClassElementView) -> bool {
    match member {
        ClassElementView::PropertyDefinition(property) => !property.is_static && property.value is Some,
        ClassElementView::AccessorProperty(accessor) => !accessor.is_static && accessor.value is Some,
        _ => false,
    }
}

/// The member with `init` run before its value is taken.
pub open spec fn with_init_before_value(
    member: ClassElementView,
    init: ExpressionView,
) -> ClassElementView {
    match member {
        ClassElementView::PropertyDefinition(property) => ClassElementView::PropertyDefinition(
            PropertyDefinitionView {
                value: Some(ExpressionView::SequenceExpression(seq![init, property.value->0])),
                ..property
            },
        ),
        ClassElementView::AccessorProperty(accessor) => ClassElementView::AccessorProperty(
            AccessorPropertyView {
                value: Some(ExpressionView::SequenceExpression(seq![init, accessor.value->0])),
                ..accessor
            },
        ),
        _ => member,
    }
}

pub open spec fn is_constructor(member: ClassElementView) -> bool {
    match member {
        ClassElementView::MethodDefinition(method) => method.kind
            == MethodDefinitionKind::Constructor,
        _ => false,
    }
}

/// Whether a statement is a call of the superclass constructor.
pub open spec fn is_super_call(statement: StatementView) -> bool {
    match statement {
        StatementView::ExpressionStatement(_, ExpressionView::CallExpression(call)) => call.callee
            is Super,
        _ => false,
    }
}

/// The number of the first member with an instance value, or the number of members.
pub open spec fn first_instance_value(body: Seq<ClassElementView>) -> int
    decreases body.len(),
{
    if body.len() == 0 || has_instance_value(body[0]) {
        0
    } else {
        1 + first_instance_value(body.skip(1))
    }
}

/// The number of the constructor, or the number of members.
pub open spec fn first_constructor(body: Seq<ClassElementView>) -> int
    decreases body.len(),
{
    if body.len() == 0 || is_constructor(body[0]) {
        0
    } else {
        1 + first_constructor(body.skip(1))
    }
}

/// The number of the first call of the superclass constructor, or the number of statements.
pub open spec fn first_super_call(body: Seq<StatementView>) -> int
    decreases body.len(),
{
    if body.len() == 0 || is_super_call(body[0]) {
        0
    } else {
        1 + first_super_call(body.skip(1))
    }
}

/// Where in a constructor the initialisers run: after the call of the superclass constructor, where
/// there is one, and else first of all.
pub open spec fn insertion_point(body: Seq<StatementView>, has_super: bool) -> int {
    if has_super && first_super_call(body) < body.len() {
        first_super_call(body) + 1
    } else {
        0
    }
}

/// The constructor with `init` run in it. An overload signature stays as it is.
pub open spec fn with_init_in_body(
    member: ClassElementView,
    has_super: bool,
    init: ExpressionView,
) -> ClassElementView {
    match member {
        ClassElementView::MethodDefinition(method) => ClassElementView::MethodDefinition(
            MethodDefinitionView {
                body: match method.body {
                    Some(body) => Some(
                        body.insert(insertion_point(body, has_super), statement_of(init)),
                    ),
                    None => None,
                },
                ..method
            },
        ),
        _ => member,
    }
}

/// `super();`
pub open spec fn super_call() -> StatementView {
    statement_of(call_of(ExpressionView::Super(unspanned()), Seq::empty()))
}

/// A constructor that runs `init`.
pub open spec fn constructor_with(
    has_super: bool,
    scope_id: usize,
    init: ExpressionView,
) -> ClassElementView {
    ClassElementView::MethodDefinition(
        MethodDefinitionView {
            source: MethodSource::Created { has_super, scope_id },
            kind: MethodDefinitionKind::Constructor,
            is_static: false,
            decorators: Seq::empty(),
            key: PropertyKeyView::StaticIdentifier("constructor"@),
            body: Some(
                if has_super {
                    seq![super_call(), statement_of(init)]
                } else {
                    seq![statement_of(init)]
                },
            ),
        },
    )
}

/// Whether the initialisers run with the value of a member, as they can in the later version.
pub open spec fn runs_with_value(version: DecoratorVersion, body: Seq<ClassElementView>) -> bool {
    version == DecoratorVersion::V202311 && first_instance_value(body) < body.len()
}

/// Whether a constructor has to be added for the initialisers to run in.
pub open spec fn needs_constructor(version: DecoratorVersion, body: Seq<ClassElementView>) -> bool {
    !runs_with_value(version, body) && first_constructor(body) >= body.len()
}

/// The members with `init` run when an instance is made: with the first value of a field or
/// accessor, else in the constructor, else in a new one, which has the scope `scope_id`.
pub open spec fn with_init(
    version: DecoratorVersion,
    body: Seq<ClassElementView>,
    has_super: bool,
    init: ExpressionView,
    scope_id: usize,
) -> Seq<ClassElementView> {
    let value = first_instance_value(body);
    let constructor = first_constructor(body);
    if runs_with_value(version, body) {
        body.update(value, with_init_before_value(body[value], init))
    } else if !needs_constructor(version, body) {
        body.update(constructor, with_init_in_body(body[constructor], has_super, init))
    } else {
        seq![constructor_with(has_super, scope_id, init)] + body
    }
}

/// The class with the initialisers of its instances run, if there is a function that runs them.
pub open spec fn class_processed(
    t: TransformView,
    class: ClassView,
    scope_id: usize,
    base: nat,
) -> ClassView {
    match t.state.init_proto {
        Some(init) => ClassView {
            body: with_init(
                t.version,
                class.body,
                class.super_class is Some,
                init_call(init, base),
                scope_id,
            ),
            ..class
        },
        None => class,
    }
}

/// The transform when it has processed the body of a class. The references that are made have the
/// numbers from `base` on.
pub open spec fn body_left(
    t: TransformView,
    class_ref: Option<BoundIdentifierView>,
    base: nat,
) -> TransformView {
    consumed(t, class_ref, base + count(t.state.init_proto))
}

/// The references that are made when the body of a class is processed.
pub open spec fn processed_entries(
    state: ClassStateView,
    class_ref: Option<BoundIdentifierView>,
) -> Seq<Entry> {
    read_entries(state.init_proto) + consumed_entries(state, class_ref)
}

/// How many references are made at most when the body of a class is processed.
pub const PROCESS_REFERENCES: usize = 7;

/// Whether a scope for a new constructor is made.
pub open spec fn makes_scope(t: TransformView, class: ClassView) -> bool {
    t.state.init_proto is Some && needs_constructor(t.version, class.body)
}

/// The scope tree, with one more scope for a constructor in the current scope where one is made.
pub open spec fn scopes_after(ctx: TraverseCtx<'_, ()>, makes_scope: bool) -> Seq<
    (Option<nat>, u16),
> {
    if makes_scope {
        scopes(ctx).push(
            (
                Some(current_scope(ctx)),
                CONSTRUCTOR_SCOPE | (scopes(ctx)[current_scope(ctx) as int].1 & STRICT_MODE),
            ),
        )
    } else {
        scopes(ctx)
    }
}

pub proof fn lemma_first_instance_value(body: Seq<ClassElementView>, n: int)
    requires
        0 <= n <= body.len(),
        forall|i: int| 0 <= i < n ==> !has_instance_value(#[trigger] body[i]),
        n < body.len() ==> has_instance_value(body[n]),
    ensures
        first_instance_value(body) == n,
    decreases body.len(),
{
    if n > 0 {
        assert forall|i: int| 0 <= i < n - 1 implies !has_instance_value(
            #[trigger] body.skip(1)[i],
        ) by {
            assert(body.skip(1)[i] == body[i + 1]);
        }
        assert(!has_instance_value(body[0]));
        lemma_first_instance_value(body.skip(1), n - 1);
    }
}

pub proof fn lemma_first_constructor(body: Seq<ClassElementView>, n: int)
    requires
        0 <= n <= body.len(),
        forall|i: int| 0 <= i < n ==> !is_constructor(#[trigger] body[i]),
        n < body.len() ==> is_constructor(body[n]),
    ensures
        first_constructor(body) == n,
    decreases body.len(),
{
    if n > 0 {
        assert forall|i: int| 0 <= i < n - 1 implies !is_constructor(#[trigger] body.skip(1)[i]) by {
            assert(body.skip(1)[i] == body[i + 1]);
        }
        assert(!is_constructor(body[0]));
        lemma_first_constructor(body.skip(1), n - 1);
    }
}

pub proof fn lemma_first_super_call(body: Seq<StatementView>, n: int)
    requires
        0 <= n <= body.len(),
        forall|i: int| 0 <= i < n ==> !is_super_call(#[trigger] body[i]),
        n < body.len() ==> is_super_call(body[n]),
    ensures
        first_super_call(body) == n,
    decreases body.len(),
{
    if n > 0 {
        assert forall|i: int| 0 <= i < n - 1 implies !is_super_call(#[trigger] body.skip(1)[i]) by {
            assert(body.skip(1)[i] == body[i + 1]);
        }
        assert(!is_super_call(body[0]));
        lemma_first_super_call(body.skip(1), n - 1);
    }
}

fn find_instance_value(body: &Vec<ClassElement>) -> (r: usize)
    ensures
        r == first_instance_value(elements_view(body@)),
        0 <= r <= body@.len(),
        r < body@.len() ==> has_instance_value(elements_view(body@)[r as int]),
{
    let mut i: usize = 0;
    while i < body.len()
        invariant
            0 <= i <= body@.len(),
            forall|j: int|
                0 <= j < i ==> !has_instance_value(#[trigger] elements_view(body@)[j]),
        decreases body@.len() - i,
    {
        let ghost element = element_view(body@[i as int]);
        assert(elements_view(body@)[i as int] == element);
        let found = match &body[i] {
            ClassElement::PropertyDefinition(property) => {
                assert(element == ClassElementView::PropertyDefinition(field_view(*property)));
                !property.is_static && property.value.is_some()
            },
            ClassElement::AccessorProperty(accessor) => {
                assert(element == ClassElementView::AccessorProperty(accessor_view(*accessor)));
                !accessor.is_static && accessor.value.is_some()
            },
            _ => false,
        };
        if found {
            proof {
                lemma_first_instance_value(elements_view(body@), i as int);
            }
            return i;
        }
        i += 1;
    }
    proof {
        lemma_first_instance_value(elements_view(body@), i as int);
    }
    i
}

fn find_constructor(body: &Vec<ClassElement>) -> (r: usize)
    ensures
        r == first_constructor(elements_view(body@)),
        0 <= r <= body@.len(),
        r < body@.len() ==> is_constructor(elements_view(body@)[r as int]),
{
    let mut i: usize = 0;
    while i < body.len()
        invariant
            0 <= i <= body@.len(),
            forall|j: int| 0 <= j < i ==> !is_constructor(#[trigger] elements_view(body@)[j]),
        decreases body@.len() - i,
    {
        let ghost element = element_view(body@[i as int]);
        assert(elements_view(body@)[i as int] == element);
        let found = match &body[i] {
            ClassElement::MethodDefinition(method) => {
                assert(element == ClassElementView::MethodDefinition(method_view(*method)));
                method.kind == MethodDefinitionKind::Constructor
            },
            _ => false,
        };
        if found {
            proof {
                lemma_first_constructor(elements_view(body@), i as int);
            }
            return i;
        }
        i += 1;
    }
    proof {
        lemma_first_constructor(elements_view(body@), i as int);
    }
    i
}

fn super_call_statement(statement: &Statement) -> (r: bool)
    ensures
        r == is_super_call(statement@),
{
    match statement {
        Statement::ExpressionStatement(_, expression) => {
            assert(statement@ == StatementView::ExpressionStatement(
                statement->ExpressionStatement_0,
                expression@,
            ));
            match expression {
                Expression::CallExpression(call) => {
                    assert(expression@ == ExpressionView::CallExpression(Box::new(call_view(**call))));
                    assert(call_view(**call).callee == call.callee@);
                    match &call.callee {
                        Expression::Super(_) => true,
                        _ => false,
                    }
                },
                _ => false,
            }
        },
        _ => false,
    }
}

fn find_insertion_point(body: &Vec<Statement>, has_super: bool) -> (r: usize)
    ensures
        r == insertion_point(statements_view(body@), has_super),
        0 <= r <= body@.len(),
{
    if !has_super {
        return 0;
    }
    let mut i: usize = 0;
    while i < body.len()
        invariant
            has_super,
            0 <= i <= body@.len(),
            forall|j: int| 0 <= j < i ==> !is_super_call(#[trigger] statements_view(body@)[j]),
        decreases body@.len() - i,
    {
        assert(statements_view(body@)[i as int] == body@[i as int]@);
        if super_call_statement(&body[i]) {
            proof {
                lemma_first_super_call(statements_view(body@), i as int);
            }
            return i + 1;
        }
        i += 1;
    }
    proof {
        lemma_first_super_call(statements_view(body@), i as int);
    }
    0
}

/// A sequence expression that runs `init` and has the value of `value`.
fn sequence(init: Expression, value: Expression) -> (r: Expression)
    ensures
        r@ == ExpressionView::SequenceExpression(seq![init@, value@]),
{
    let mut expressions: Vec<Expression> = Vec::new();
    expressions.push(init);
    expressions.push(value);
    assert(expressions_view(expressions@) =~= seq![init@, value@]);
    Expression::SequenceExpression(expressions)
}

fn run_before_value(member: ClassElement, init: Expression) -> (r: ClassElement)
    requires
        has_instance_value(member@),
    ensures
        r@ == with_init_before_value(member@, init@),
{
    match member {
        ClassElement::PropertyDefinition(property) => {
            let mut property = property;
            let ghost before = field_view(property);
            assert(member@ == ClassElementView::PropertyDefinition(before));
            let mut value: Option<Expression> = None;
            std::mem::swap(&mut value, &mut property.value);
            if let Some(value) = value {
                property.value = Some(sequence(init, value));
            }
            assert(field_view(property) =~= with_init_before_value(
                member@,
                init@,
            )->PropertyDefinition_0);
            ClassElement::PropertyDefinition(property)
        },
        ClassElement::AccessorProperty(accessor) => {
            let mut accessor = accessor;
            let ghost before = accessor_view(accessor);
            assert(member@ == ClassElementView::AccessorProperty(before));
            let mut value: Option<Expression> = None;
            std::mem::swap(&mut value, &mut accessor.value);
            if let Some(value) = value {
                accessor.value = Some(sequence(init, value));
            }
            assert(accessor_view(accessor) =~= with_init_before_value(
                member@,
                init@,
            )->AccessorProperty_0);
            ClassElement::AccessorProperty(accessor)
        },
        other => other,
    }
}

fn run_in_body(member: ClassElement, has_super: bool, init: Expression) -> (r: ClassElement)
    requires
        is_constructor(member@),
    ensures
        r@ == with_init_in_body(member@, has_super, init@),
{
    match member {
        ClassElement::MethodDefinition(method) => {
            let mut method = method;
            let ghost before = method_view(method);
            assert(member@ == ClassElementView::MethodDefinition(before));
            let mut body: Option<Vec<Statement>> = None;
            std::mem::swap(&mut body, &mut method.body);
            if let Some(statements) = body {
                let mut statements = statements;
                let ghost list = statements@;
                let position: usize = find_insertion_point(&statements, has_super);
                let statement = expression_statement(init);
                statements.insert(position, statement);
                assert(statements_view(statements@) =~= statements_view(list).insert(
                    position as int,
                    statement@,
                ));
                method.body = Some(statements);
            }
            assert(method_view(method) =~= with_init_in_body(
                member@,
                has_super,
                init@,
            )->MethodDefinition_0);
            ClassElement::MethodDefinition(method)
        },
        other => other,
    }
}

/// A constructor that runs `init`, after the superclass constructor where there is one.
fn create_class_constructor(has_super: bool, scope_id: usize, init: Expression) -> (r: ClassElement)
    ensures
        r@ == constructor_with(has_super, scope_id, init@),
{
    let mut statements: Vec<Statement> = Vec::new();
    if has_super {
        let arguments: Vec<Argument> = Vec::new();
        assert(arguments_view(arguments@) =~= Seq::empty());
        statements.push(expression_statement(call(Expression::Super(no_span()), arguments)));
    }
    let statement = expression_statement(init);
    statements.push(statement);
    let method = MethodDefinition {
        source: MethodSource::Created { has_super, scope_id },
        kind: MethodDefinitionKind::Constructor,
        is_static: false,
        decorators: Vec::new(),
        key: PropertyKey::StaticIdentifier("constructor".to_owned()),
        body: Some(statements),
    };
    assert(decorators_view(method.decorators@) =~= Seq::empty());
    assert(statements_view(statements@) =~= (if has_super {
        seq![super_call(), statement@]
    } else {
        seq![statement@]
    }));
    assert(method_view(method) =~= constructor_with(
        has_super,
        scope_id,
        init@,
    )->MethodDefinition_0);
    ClassElement::MethodDefinition(method)
}

impl Tc39Decorator {
    /// Has the initialisers of the instances of a class run.
    #[verifier::spinoff_prover]
    #[verifier::rlimit(30)]
    fn inject_init(&self, class: &mut Class, init: Expression, ctx: &mut TraverseCtx<'_, ()>)
        requires
            current_scope(*old(ctx)) < scopes(*old(ctx)).len(),
            needs_constructor(self@.version, old(class)@.body) ==> scope_room(*old(ctx)),
        ensures
            final(class)@ == (ClassView {
                body: with_init(
                    self@.version,
                    old(class)@.body,
                    old(class)@.super_class is Some,
                    init@,
                    scopes(*old(ctx)).len() as usize,
                ),
                ..old(class)@
            }),
            issued(*old(ctx), *final(ctx), Seq::empty(), Seq::empty()),
            scopes(*final(ctx)) == scopes_after(
                *old(ctx),
                needs_constructor(self@.version, old(class)@.body),
            ),
    {
        proof {
            lemma_issued_nothing(*ctx);
        }
        let ghost before = class@;
        let ghost list = class.body@;
        assert(before.body == elements_view(list));
        let has_super = class.super_class.is_some();
        let value: usize = find_instance_value(&class.body);
        if self.is_2023_11() && value < class.body.len() {
            let member = class.body.remove(value);
            assert(before.body[value as int] == member@);
            let member = run_before_value(member, init);
            class.body.insert(value, member);
            assert(elements_view(class.body@) =~= before.body.update(value as int, member@));
            return;
        }
        let constructor: usize = find_constructor(&class.body);
        if constructor < class.body.len() {
            let member = class.body.remove(constructor);
            assert(before.body[constructor as int] == member@);
            let member = run_in_body(member, has_super, init);
            class.body.insert(constructor, member);
            assert(elements_view(class.body@) =~= before.body.update(constructor as int, member@));
        } else {
            let scope_id: usize = create_child_scope_of_current(ctx, CONSTRUCTOR_SCOPE);
            proof {
                assert(handed_out(*old(ctx), *ctx) =~= Seq::empty());
                assert(references(*old(ctx)) + Seq::<Entry>::empty().map_values(
                    |e: Entry| (Some(e.symbol_id), current_scope(*old(ctx)), e.flags),
                ) =~= references(*old(ctx)));
            }
            let member = create_class_constructor(has_super, scope_id, init);
            class.body.insert(0, member);
            assert(elements_view(class.body@) =~= seq![member@] + before.body);
        }
    }

    /// Has the initialisers of the instances of a class run, and puts out the statements that apply
    /// its decorators. `class_ref` is the variable that holds the class.
    #[verifier::spinoff_prover]
    #[verifier::rlimit(30)]
    pub fn process_class_body(
        &mut self,
        class: &mut Class,
        class_ref: Option<&BoundIdentifier>,
        ctx: &mut TraverseCtx<'_, ()>,
    )
        requires
            old(self)@.state.init_proto is Some || is_pending(old(self)@.state) ==> can_apply(
                old(self)@.state,
                ref_view(class_ref),
                *old(ctx),
                PROCESS_REFERENCES as int,
            ),
            makes_scope(old(self)@, old(class)@) ==> scope_room(*old(ctx)),
        ensures
            final(self)@ == body_left(
                old(self)@,
                ref_view(class_ref),
                references(*old(ctx)).len(),
            ),
            final(class)@ == class_processed(
                old(self)@,
                old(class)@,
                scopes(*old(ctx)).len() as usize,
                references(*old(ctx)).len(),
            ),
            issued(
                *old(ctx),
                *final(ctx),
                Seq::empty(),
                processed_entries(old(self)@.state, ref_view(class_ref)),
            ),
            scopes(*final(ctx)) == scopes_after(
                *old(ctx),
                makes_scope(old(self)@, old(class)@),
            ),
    {
        let ghost t = self@;
        let ghost cref = ref_view(class_ref);
        let ghost none = Seq::<Request>::empty();
        let ghost e1 = read_entries(t.state.init_proto);
        proof {
            lemma_issued_nothing(*ctx);
        }
        if let Some(init_proto) = &self.state.init_proto {
            let read = init_proto.read(ctx);
            let ghost ctx1 = *ctx;
            let call = call_one(read, Expression::ThisExpression);
            let init = Expression::CloneIn(Box::new(call));
            self.inject_init(class, init, ctx);
            proof {
                lemma_issued_more(*old(ctx), ctx1, *ctx, none, e1, Seq::empty());
                assert(e1 + Seq::<Entry>::empty() =~= e1);
                lemma_can_apply(t.state, cref, *old(ctx), *ctx, e1, 7);
            }
        }
        let ghost ctx2 = *ctx;
        self.consume_inits(class_ref, ctx);
        proof {
            let e2 = consumed_entries(t.state, cref);
            lemma_issued_more(*old(ctx), ctx2, *ctx, none, e1, e2);
        }
    }
}

} // verus!
