//! Where the initialisers of an instance are run.
use super::applying::{mention, one};
use crate::ast::{MethodDefinitionKind, MethodSource, Span};
use crate::context::{current_scope, scopes, Entry};
use crate::decorator::apply::{consumed, consumed_entries};
use crate::decorator::inject::{
    body_left, class_processed, first_constructor, first_instance_value, has_instance_value,
    is_constructor, is_super_call, lemma_first_constructor, lemma_first_instance_value,
    lemma_first_super_call, makes_scope, processed_entries, scopes_after,
};
use crate::decorator::{DecoratorVersion, TransformView};
use crate::model::{
    ArgumentView, BoundIdentifierView, ClassElementView, ClassView, ExpressionView,
    MethodDefinitionView, PropertyKeyView, StatementView,
};
use oxc_traverse::TraverseCtx;
use vstd::prelude::*;

verus! {

/// Whether a member is a field or an accessor of the instances, and has a value.
pub open spec fn gives_value(member: ClassElementView) -> bool {
    match member {
        ClassElementView::Source(_) => false,
        ClassElementView::MethodDefinition(_) => false,
        ClassElementView::PropertyDefinition(p) => !p.is_static && p.value is Some,
        ClassElementView::AccessorProperty(a) => !a.is_static && a.value is Some,
    }
}

/// Whether a member is a constructor.
pub open spec fn constructs(member: ClassElementView) -> bool {
    member matches ClassElementView::MethodDefinition(m) && m.kind
        == MethodDefinitionKind::Constructor
}

/// Whether a statement calls the constructor of the superclass.
pub open spec fn calls_super(statement: StatementView) -> bool {
    statement matches StatementView::ExpressionStatement(_, e) && e
        matches ExpressionView::CallExpression(call) && call.callee is Super
}

/// Whether an expression is a copy of the call of `init` on `this`.
pub open spec fn runs_init(e: ExpressionView, init: BoundIdentifierView, reference_id: nat) -> bool {
    &&& e matches ExpressionView::CloneIn(copied)
    &&& *copied matches ExpressionView::CallExpression(call)
    &&& call.source is None
    &&& call.span == Span { start: 0, end: 0 }
    &&& call.callee == ExpressionView::Identifier(mention(init, reference_id))
    &&& call.arguments.len() == 1
    &&& call.arguments[0] == ArgumentView::Expression(ExpressionView::ThisExpression)
}

/// Whether a statement consists of that call.
pub open spec fn is_init(s: StatementView, init: BoundIdentifierView, reference_id: nat) -> bool {
    &&& s matches StatementView::ExpressionStatement(span, e)
    &&& span == Span { start: 0, end: 0 }
    &&& runs_init(e, init, reference_id)
}

/// Whether a class is the same as another but for its members.
pub open spec fn same_but_members(a: ClassView, b: ClassView) -> bool {
    &&& a.source == b.source
    &&& a.class_type == b.class_type
    &&& a.name == b.name
    &&& a.decorators == b.decorators
    &&& a.super_class == b.super_class
}

/// Whether one method is the same as another but for its body.
pub open spec fn same_but_body(a: MethodDefinitionView, b: MethodDefinitionView) -> bool {
    &&& a.source == b.source
    &&& a.kind == b.kind
    &&& a.is_static == b.is_static
    &&& a.decorators == b.decorators
    &&& a.key == b.key
}

/// Without a function that runs the initialisers of an instance, a class stays as it is.
pub proof fn classes_without_initializers_stay(
    t: TransformView,
    class: ClassView,
    scope_id: usize,
    base: nat,
)
    requires
        t.state.init_proto is None,
    ensures
        class_processed(t, class, scope_id, base) == class,
{
}

/// In the later version the initialisers run before the first value that an instance gets from a
/// field or an accessor, and nowhere else. That value is still the one that the member gets.
pub proof fn initializers_run_before_the_first_value(
    t: TransformView,
    class: ClassView,
    scope_id: usize,
    base: nat,
    k: int,
    j: int,
)
    requires
        t.version == DecoratorVersion::V202311,
        t.state.init_proto is Some,
        0 <= k < class.body.len(),
        gives_value(class.body[k]),
        forall|i: int| 0 <= i < k ==> !gives_value(#[trigger] class.body[i]),
    ensures
        ({
            let init = t.state.init_proto->0;
            let after = class_processed(t, class, scope_id, base);
            &&& same_but_members(after, class)
            &&& after.body.len() == class.body.len()
            &&& 0 <= j < class.body.len() && j != k ==> after.body[j] == class.body[j]
            &&& match class.body[k] {
                ClassElementView::PropertyDefinition(p) => {
                    &&& after.body[k] matches ClassElementView::PropertyDefinition(a)
                    &&& a.source == p.source
                    &&& a.is_abstract == p.is_abstract
                    &&& a.is_static == p.is_static
                    &&& a.decorators == p.decorators
                    &&& a.key == p.key
                    &&& a.value matches Some(ExpressionView::SequenceExpression(list))
                    &&& list.len() == 2
                    &&& runs_init(list[0], init, base)
                    &&& Some(list[1]) == p.value
                },
                ClassElementView::AccessorProperty(c) => {
                    &&& after.body[k] matches ClassElementView::AccessorProperty(a)
                    &&& a.source == c.source
                    &&& a.is_static == c.is_static
                    &&& a.decorators == c.decorators
                    &&& a.key == c.key
                    &&& a.value matches Some(ExpressionView::SequenceExpression(list))
                    &&& list.len() == 2
                    &&& runs_init(list[0], init, base)
                    &&& Some(list[1]) == c.value
                },
                _ => false,
            }
        }),
{
    assert forall|i: int| 0 <= i < k implies !has_instance_value(#[trigger] class.body[i]) by {
        assert(!gives_value(class.body[i]));
    }
    lemma_first_instance_value(class.body, k);
}

proof fn lemma_no_value(body: Seq<ClassElementView>)
    requires
        forall|i: int| 0 <= i < body.len() ==> !gives_value(#[trigger] body[i]),
    ensures
        first_instance_value(body) == body.len(),
{
    assert forall|i: int| 0 <= i < body.len() implies !has_instance_value(#[trigger] body[i]) by {
        assert(!gives_value(body[i]));
    }
    lemma_first_instance_value(body, body.len() as int);
}

proof fn lemma_constructor_at(body: Seq<ClassElementView>, k: int)
    requires
        0 <= k <= body.len(),
        k < body.len() ==> constructs(body[k]),
        forall|i: int| 0 <= i < k ==> !constructs(#[trigger] body[i]),
    ensures
        first_constructor(body) == k,
{
    assert forall|i: int| 0 <= i < k implies !is_constructor(#[trigger] body[i]) by {
        assert(!constructs(body[i]));
    }
    lemma_first_constructor(body, k);
}

/// Where they cannot run with a value, the initialisers run in the constructor of the class, the
/// first if there are several, and nowhere else. In a class with a superclass they run right after
/// the first call of its constructor, wherever in the body that is, also at the end. Without such a
/// call, or without a superclass, they run first. All other statements stay in their order. A
/// constructor without a body stays as it is.
pub proof fn initializers_run_in_the_constructor(
    t: TransformView,
    class: ClassView,
    scope_id: usize,
    base: nat,
    k: int,
    j: int,
    s: int,
    n: int,
)
    requires
        t.state.init_proto is Some,
        t.version == DecoratorVersion::V202203 || forall|i: int|
            0 <= i < class.body.len() ==> !gives_value(#[trigger] class.body[i]),
        0 <= k < class.body.len(),
        constructs(class.body[k]),
        forall|i: int| 0 <= i < k ==> !constructs(#[trigger] class.body[i]),
    ensures
        ({
            let init = t.state.init_proto->0;
            let after = class_processed(t, class, scope_id, base);
            let before = class.body[k]->MethodDefinition_0;
            &&& same_but_members(after, class)
            &&& after.body.len() == class.body.len()
            &&& 0 <= j < class.body.len() && j != k ==> after.body[j] == class.body[j]
            &&& after.body[k] matches ClassElementView::MethodDefinition(method)
            &&& same_but_body(method, before)
            &&& before.body is None ==> method.body is None
            &&& before.body matches Some(old_body) ==> {
                &&& method.body matches Some(body)
                &&& body.len() == old_body.len() + 1
                // `s` is the first call of the constructor of the superclass.
                &&& class.super_class is Some && 0 <= s < old_body.len() && calls_super(
                    old_body[s],
                ) && (forall|i: int| 0 <= i < s ==> !calls_super(#[trigger] old_body[i])) ==> {
                    &&& is_init(body[s + 1], init, base)
                    &&& 0 <= n <= s ==> body[n] == old_body[n]
                    &&& s < n < old_body.len() ==> body[n + 1] == old_body[n]
                }
                &&& class.super_class is None || (forall|i: int|
                    0 <= i < old_body.len() ==> !calls_super(#[trigger] old_body[i])) ==> {
                    &&& is_init(body[0], init, base)
                    &&& 0 <= n < old_body.len() ==> body[n + 1] == old_body[n]
                }
            }
        }),
{
    if t.version == DecoratorVersion::V202311 {
        lemma_no_value(class.body);
    }
    lemma_constructor_at(class.body, k);
    if let Some(old_body) = class.body[k]->MethodDefinition_0.body {
        super::lemma_first_super_call_is_first(old_body);
        if 0 <= s < old_body.len() && calls_super(old_body[s]) && (forall|i: int|
            0 <= i < s ==> !calls_super(#[trigger] old_body[i])) {
            assert forall|i: int| 0 <= i < s implies !is_super_call(#[trigger] old_body[i]) by {
                assert(!calls_super(old_body[i]));
            }
            lemma_first_super_call(old_body, s);
        }
        if forall|i: int| 0 <= i < old_body.len() ==> !calls_super(#[trigger] old_body[i]) {
            assert forall|i: int| 0 <= i < old_body.len() implies !is_super_call(
                #[trigger] old_body[i],
            ) by {
                assert(!calls_super(old_body[i]));
            }
            lemma_first_super_call(old_body, old_body.len() as int);
        }
    }
}

/// Where there is neither such a value nor a constructor, one constructor is added before all other
/// members, which stay. It runs the initialisers, in a class with a superclass after `super()`, and
/// has the scope that was made for it.
pub proof fn initializers_run_in_a_new_constructor(
    t: TransformView,
    class: ClassView,
    scope_id: usize,
    base: nat,
    j: int,
)
    requires
        t.state.init_proto is Some,
        t.version == DecoratorVersion::V202203 || forall|i: int|
            0 <= i < class.body.len() ==> !gives_value(#[trigger] class.body[i]),
        forall|i: int| 0 <= i < class.body.len() ==> !constructs(#[trigger] class.body[i]),
    ensures
        ({
            let init = t.state.init_proto->0;
            let after = class_processed(t, class, scope_id, base);
            let has_super = class.super_class is Some;
            &&& same_but_members(after, class)
            &&& after.body.len() == class.body.len() + 1
            &&& 0 <= j < class.body.len() ==> after.body[j + 1] == class.body[j]
            &&& after.body[0] matches ClassElementView::MethodDefinition(method)
            &&& method.source == MethodSource::Created { has_super, scope_id }
            &&& method.kind == MethodDefinitionKind::Constructor
            &&& !method.is_static
            &&& method.decorators.len() == 0
            &&& method.key == PropertyKeyView::StaticIdentifier("constructor"@)
            &&& method.body matches Some(body)
            &&& !has_super ==> body.len() == 1 && is_init(body[0], init, base)
            &&& has_super ==> {
                &&& body.len() == 2
                &&& is_init(body[1], init, base)
                &&& body[0] matches StatementView::ExpressionStatement(
                    span,
                    ExpressionView::CallExpression(call),
                )
                &&& span == Span { start: 0, end: 0 }
                &&& call.source is None
                &&& call.span == Span { start: 0, end: 0 }
                &&& call.callee == ExpressionView::Super(Span { start: 0, end: 0 })
                &&& call.arguments.len() == 0
            }
        }),
{
    if t.version == DecoratorVersion::V202311 {
        lemma_no_value(class.body);
    }
    lemma_constructor_at(class.body, class.body.len() as int);
}

/// A scope is made if and only if a constructor is added. It is a function and a constructor, is a
/// child of the current scope, and is strict if that is.
pub proof fn scopes_are_made_for_new_constructors(
    t: TransformView,
    class: ClassView,
    ctx: TraverseCtx<'_, ()>,
)
    ensures
        makes_scope(t, class) <==> {
            &&& t.state.init_proto is Some
            &&& forall|i: int| 0 <= i < class.body.len() ==> !constructs(#[trigger] class.body[i])
            &&& t.version == DecoratorVersion::V202203 || forall|i: int|
                0 <= i < class.body.len() ==> !gives_value(#[trigger] class.body[i])
        },
        scopes_after(ctx, false) == scopes(ctx),
        scopes_after(ctx, true) == scopes(ctx).push(
            (Some(current_scope(ctx)), 68u16 | (scopes(ctx)[current_scope(ctx) as int].1 & 1u16)),
        ),
{
    let body = class.body;
    if forall|i: int| 0 <= i < body.len() ==> !constructs(#[trigger] body[i]) {
        lemma_constructor_at(body, body.len() as int);
    } else {
        let k = lemma_least_constructor(body);
        lemma_constructor_at(body, k);
    }
    if forall|i: int| 0 <= i < body.len() ==> !gives_value(#[trigger] body[i]) {
        lemma_no_value(body);
    } else {
        let k = lemma_least_value(body);
        assert forall|i: int| 0 <= i < k implies !has_instance_value(#[trigger] body[i]) by {
            assert(!gives_value(body[i]));
        }
        lemma_first_instance_value(body, k);
    }
}

proof fn lemma_least_constructor(body: Seq<ClassElementView>) -> (k: int)
    requires
        exists|i: int| 0 <= i < body.len() && constructs(#[trigger] body[i]),
    ensures
        0 <= k < body.len(),
        constructs(body[k]),
        forall|i: int| 0 <= i < k ==> !constructs(#[trigger] body[i]),
    decreases body.len(),
{
    let before = body.drop_last();
    if exists|i: int| 0 <= i < before.len() && constructs(#[trigger] before[i]) {
        let k = lemma_least_constructor(before);
        assert forall|i: int| 0 <= i < k implies !constructs(#[trigger] body[i]) by {
            assert(before[i] == body[i]);
        }
        k
    } else {
        assert forall|i: int| 0 <= i < before.len() implies !constructs(#[trigger] body[i]) by {
            assert(before[i] == body[i]);
        }
        body.len() - 1
    }
}

proof fn lemma_least_value(body: Seq<ClassElementView>) -> (k: int)
    requires
        exists|i: int| 0 <= i < body.len() && gives_value(#[trigger] body[i]),
    ensures
        0 <= k < body.len(),
        gives_value(body[k]),
        forall|i: int| 0 <= i < k ==> !gives_value(#[trigger] body[i]),
    decreases body.len(),
{
    let before = body.drop_last();
    if exists|i: int| 0 <= i < before.len() && gives_value(#[trigger] before[i]) {
        let k = lemma_least_value(before);
        assert forall|i: int| 0 <= i < k implies !gives_value(#[trigger] body[i]) by {
            assert(before[i] == body[i]);
        }
        k
    } else {
        assert forall|i: int| 0 <= i < before.len() implies !gives_value(#[trigger] body[i]) by {
            assert(before[i] == body[i]);
        }
        body.len() - 1
    }
}

/// Processing the body of a class puts out what waits, with one reference more before: that of the
/// call that runs the initialisers of an instance, where there is one.
pub proof fn body_is_processed_with_what_waits(
    t: TransformView,
    class_ref: Option<BoundIdentifierView>,
    base: nat,
)
    ensures
        body_left(t, class_ref, base) == consumed(
            t,
            class_ref,
            base + one(t.state.init_proto is Some),
        ),
        t.state.init_proto is None ==> processed_entries(t.state, class_ref) == consumed_entries(
            t.state,
            class_ref,
        ),
        t.state.init_proto matches Some(b) ==> processed_entries(t.state, class_ref) == seq![
            Entry { symbol_id: b.symbol_id, flags: 1 },
        ] + consumed_entries(t.state, class_ref),
{
    if t.state.init_proto is None {
        assert(Seq::<Entry>::empty() + consumed_entries(t.state, class_ref) =~= consumed_entries(
            t.state,
            class_ref,
        ));
    }
}

} // verus!
