//! What holds of the transform as a whole.
use crate::ast::ClassType;
use crate::builder::{bound, read_of, write_of};
use crate::context::{
    all_short, bindings, handed_out, hoist_scope, is_uid, issued, lemma_issued_more, read_entry,
    references, scopes, short_names, supplied, taken_names, write_entry, Entry, Request, Supply,
    with_bindings,
};
use crate::decorator::apply::{
    apply_statement, class_reference, consumed, consumed_entries, count, element_targets,
    helper_arguments, is_pending, member_elements, present, static_init, static_reference,
    super_reference,
};
use crate::decorator::inject::{
    first_constructor, first_instance_value, first_super_call, has_instance_value, insertion_point,
    is_constructor, is_super_call, with_init, with_init_before_value, with_init_in_body,
};
use crate::decorator::members::{
    decorators_of, description, is_decorated, is_field, is_static_member, is_target, key_of,
    kind_of,
};
use crate::decorator::transform::{
    class_entered, class_stripped, class_transformed, needs_initializer, visited_all, Progress,
};
use crate::decorator::visit::{
    after_wrap, awaits_exit, class_entry, class_exit, class_request, declaration_requests,
    declarations, enters, expression_exit, lemma_class_transformed_wf, program_left, put_out,
    replaces, statement_exit, wf, with_class_lhs, wrapped, wraps, InsertionsView,
};
use crate::decorator::{ClassStateView, DecoratorVersion, TransformView};
use crate::model::{
    ArgumentView, BoundIdentifierView, ClassElementView, ClassView, ExpressionView, ProgramView,
    StatementView,
};
use oxc_traverse::TraverseCtx;
use vstd::prelude::*;

pub mod applying;
pub mod injecting;
pub mod members;
pub mod tables;
pub mod taking;
pub mod viewing;
pub mod visiting;

verus! {

/// Whether two members are of the same kind: both methods, both getters and so on, and both static
/// or both not.
pub open spec fn same_kind(a: ClassElementView, b: ClassElementView) -> bool {
    &&& is_static_member(a) == is_static_member(b)
    &&& match (a, b) {
        (ClassElementView::MethodDefinition(a), ClassElementView::MethodDefinition(b)) => a.kind
            == b.kind,
        (ClassElementView::PropertyDefinition(_), ClassElementView::PropertyDefinition(_)) => true,
        (ClassElementView::AccessorProperty(_), ClassElementView::AccessorProperty(_)) => true,
        _ => false,
    }
}

/// The number that the helper gets for a member tells its kind: two decorated members have the same
/// number if and only if they are of the same kind.
pub proof fn kinds_are_told_apart(
    version: DecoratorVersion,
    a: ClassElementView,
    b: ClassElementView,
)
    requires
        is_target(a),
        is_target(b),
    ensures
        kind_of(version, a) == kind_of(version, b) <==> same_kind(a, b),
{
}

/// A class without decorators passes through: entering and leaving it changes nothing, if no
/// class around it is still to be put out.
pub proof fn undecorated_class_is_left_alone(
    t: TransformView,
    class: ClassView,
    ctx: TraverseCtx<'_, ()>,
    mid_t: TransformView,
    mid_class: ClassView,
    mid_ctx: TraverseCtx<'_, ()>,
    new_t: TransformView,
    new_class: ClassView,
    new_ctx: TraverseCtx<'_, ()>,
)
    requires
        !is_decorated(class),
        !awaits_exit(t),
        class_entry(t, class, ctx, mid_t, mid_class, mid_ctx),
        class_exit(mid_t, mid_class, mid_ctx, new_t, new_class, new_ctx),
    ensures
        new_t == t,
        new_class == class,
        issued(ctx, new_ctx, Seq::empty(), Seq::empty()),
        scopes(new_ctx) == scopes(ctx),
{
    lemma_issued_more(ctx, mid_ctx, new_ctx, Seq::empty(), Seq::empty(), Seq::empty());
    assert(Seq::<Entry>::empty() + Seq::<Entry>::empty() =~= Seq::<Entry>::empty());
}

/// A statement that declares no class with decorators is left as it is.
pub proof fn undecorated_statement_is_left_alone(
    t: TransformView,
    stmt: StatementView,
    ctx: TraverseCtx<'_, ()>,
    new_t: TransformView,
    new_stmt: StatementView,
    new_ctx: TraverseCtx<'_, ()>,
    result: Option<InsertionsView>,
)
    requires
        stmt matches StatementView::ClassDeclaration(class) ==> !is_decorated(*class),
        statement_exit(t, stmt, ctx, new_t, new_stmt, new_ctx, result),
    ensures
        new_t == t,
        new_stmt == stmt,
        result is None,
        issued(ctx, new_ctx, Seq::empty(), Seq::empty()),
        scopes(new_ctx) == scopes(ctx),
{
}

/// Only constructors and abstract properties keep their decorators. The members stay in their
/// order, and nothing else of them changes.
pub proof fn decorators_are_taken_off(class: ClassView, supply: Supply, i: int)
    requires
        0 <= i < class.body.len(),
    ensures
        class_stripped(class, supply).decorators.len() == 0,
        class_stripped(class, supply).body.len() == class.body.len(),
        ({
            let before = class.body[i];
            let after = class_stripped(class, supply).body[i];
            &&& !is_target(after)
            &&& !is_target(before) ==> after == before
            &&& is_target(before) ==> decorators_of(after).len() == 0
            &&& key_of(after) == key_of(before)
            &&& is_static_member(after) == is_static_member(before)
            &&& is_constructor(after) == is_constructor(before)
        }),
{
}

/// The members that the transform takes the decorators off, of one of the two groups.
pub open spec fn targets_of(members: Seq<ClassElementView>, is_static: bool) -> Seq<
    ClassElementView,
> {
    members.filter(|m: ClassElementView| is_target(m) && is_static_member(m) == is_static)
}

pub open spec fn descriptions(version: DecoratorVersion, members: Seq<ClassElementView>) -> Seq<
    Option<ExpressionView>,
> {
    members.map_values(|m: ClassElementView| Some(description(version, m)))
}

proof fn lemma_visited_all_descriptions(
    p: Progress,
    members: Seq<ClassElementView>,
    supply: Supply,
)
    ensures
        ({
            let q = visited_all(p, members, supply);
            let version = p.transform.version;
            &&& q.transform.version == version
            &&& q.transform.state.class_decorators == p.transform.state.class_decorators
            &&& q.transform.state.init_static_args == p.transform.state.init_static_args
                + descriptions(version, targets_of(members, true))
            &&& q.transform.state.init_proto_args == p.transform.state.init_proto_args
                + descriptions(version, targets_of(members, false))
            &&& q.transform.extra_vars.len() == p.transform.extra_vars.len() + targets_of(
                members,
                true,
            ).len() + targets_of(members, false).len()
        }),
    decreases members.len(),
{
    reveal(Seq::filter);
    let version = p.transform.version;
    if members.len() > 0 {
        let q = visited_all(p, members.drop_last(), supply);
        lemma_visited_all_descriptions(p, members.drop_last(), supply);
        let m = members.last();
        let s = targets_of(members.drop_last(), is_static_member(m));
        assert(descriptions(version, s.push(m)) =~= descriptions(version, s).push(
            Some(description(version, m)),
        ));
        let r = visited_all(p, members, supply).transform.state;
        assert(r.init_static_args =~= p.transform.state.init_static_args + descriptions(
            version,
            targets_of(members, true),
        ));
        assert(r.init_proto_args =~= p.transform.state.init_proto_args + descriptions(
            version,
            targets_of(members, false),
        ));
    } else {
        assert(targets_of(members, true) =~= Seq::empty());
        assert(targets_of(members, false) =~= Seq::empty());
        assert(p.transform.state.init_static_args + descriptions(version, Seq::empty())
            =~= p.transform.state.init_static_args);
        assert(p.transform.state.init_proto_args + descriptions(version, Seq::empty())
            =~= p.transform.state.init_proto_args);
    }
}

/// Every decorated member is described to the helper once, with the static members and the others
/// each in the order of the source, and gets one variable.
pub proof fn members_are_described_in_order(
    t: TransformView,
    class: ClassView,
    supply: Supply,
)
    ensures
        ({
            let after = class_transformed(t, class, supply).transform;
            let statics = targets_of(class.body, true);
            let others = targets_of(class.body, false);
            &&& after.state.init_static_args == t.state.init_static_args + descriptions(
                t.version,
                statics,
            )
            &&& after.state.init_proto_args == t.state.init_proto_args + descriptions(
                t.version,
                others,
            )
            &&& after.extra_vars.len() == t.extra_vars.len() + statics.len() + others.len() + (
            if class.super_class is Some {
                1int
            } else {
                0
            })
        }),
{
    lemma_visited_all_descriptions(class_entered(t, class, supply), class.body, supply);
}

proof fn lemma_present_all(s: Seq<Option<ExpressionView>>)
    requires
        forall|i: int| 0 <= i < s.len() ==> (#[trigger] s[i]) is Some,
    ensures
        present(s).len() == s.len(),
        forall|i: int| 0 <= i < s.len() ==> Some(#[trigger] present(s)[i]) == s[i],
    decreases s.len(),
{
    if s.len() > 0 {
        lemma_present_all(s.drop_last());
    }
}

pub open spec fn one_if(b: bool) -> int {
    if b {
        1
    } else {
        0
    }
}

/// What is taken from the helper fits what it is given: one variable for each description, and one
/// for each function that runs initialisers.
pub proof fn targets_match_descriptions(t: TransformView, base: nat)
    requires
        wf(t),
    ensures
        element_targets(t.state, base).len() == member_elements(t.state).len() + one_if(
            t.state.init_proto is Some,
        ) + one_if(t.state.init_static is Some),
        present(t.state.class_decorators).len() == t.state.class_decorators.len(),
{
    lemma_present_all(t.state.init_static_args);
    lemma_present_all(t.state.init_proto_args);
    lemma_present_all(t.state.class_decorators);
}

/// Putting out what is pending leaves nothing pending, and once is enough. What was put out before
/// stays; what comes is one statement that calls the helper, and one that runs the static
/// initialisers where there is a function for it.
pub proof fn pending_is_put_out_once(
    t: TransformView,
    class_ref: Option<BoundIdentifierView>,
    base: nat,
    other_ref: Option<BoundIdentifierView>,
    other_base: nat,
)
    requires
        wf(t),
    ensures
        ({
            let after = consumed(t, class_ref, base);
            let before = t.state.extra_stmts;
            &&& !is_pending(after.state)
            &&& !awaits_exit(after)
            &&& consumed(after, other_ref, other_base) == after
            &&& consumed_entries(after.state, other_ref).len() == 0
            &&& !is_pending(t.state) ==> after == t
            &&& is_pending(t.state) ==> {
                &&& after.state.extra_stmts.len() == before.len() + 1 + one_if(
                    t.state.init_static is Some,
                )
                &&& after.state.extra_stmts.take(before.len() as int) == before
                &&& after.state.extra_stmts[before.len() as int] == apply_statement(
                    t,
                    class_ref,
                    base,
                )
                &&& t.state.init_static is Some ==> after.state.extra_stmts.last() == static_init(
                    t.state,
                    class_ref,
                    base,
                )[0]
            }
        }),
{
    let after = consumed(t, class_ref, base).state.extra_stmts;
    if is_pending(t.state) {
        assert(after.take(t.state.extra_stmts.len() as int) =~= t.state.extra_stmts);
    }
}

/// The transform stays valid when it takes over a class, when it puts out what is pending, when it
/// wraps a class expression and when it leaves a program.
pub proof fn validity_is_kept(
    t: TransformView,
    class: ClassView,
    supply: Supply,
    class_ref: Option<BoundIdentifierView>,
    base: nat,
)
    requires
        wf(t),
    ensures
        wf(class_transformed(t, class, supply).transform),
        wf(consumed(t, class_ref, base)),
        wf(after_wrap(t)),
        wf(put_out(t)),
{
    lemma_class_transformed_wf(t, class, supply);
}

/// The numbers that the identifiers are given in what is put out are those of the references that
/// are made: each number that is given leads to a reference to that variable, a read or a write as
/// the place asks for.
pub proof fn references_are_numbered_in_order(
    state: ClassStateView,
    class_ref: Option<BoundIdentifierView>,
)
    requires
        is_pending(state),
    ensures
        ({
            let entries = consumed_entries(state, class_ref);
            let first = static_reference(state, class_ref, 0) as int;
            &&& state.init_proto matches Some(b) ==> entries[0] == write_entry(b)
            &&& state.init_static matches Some(b) ==> entries[count(state.init_proto) as int]
                == write_entry(b)
            &&& class_ref matches Some(b) ==> entries[class_reference(state, 0) as int]
                == read_entry(b)
            &&& state.super_class matches Some(b) ==> entries[super_reference(
                state,
                class_ref,
                0,
            ) as int] == read_entry(b)
            &&& state.init_static matches Some(b) ==> {
                &&& class_ref matches Some(c) ==> entries[first] == read_entry(c)
                &&& entries[first + count(class_ref)] == read_entry(b)
                &&& entries.len() == first + count(class_ref) + 1
            }
            &&& state.init_static is None ==> entries.len() == first
        }),
{
}

/// The two versions give the helper the same first three arguments, but the decorators of the class
/// and the members stand the other way round. The superclass comes last in both.
pub proof fn versions_swap_two_arguments(
    later: TransformView,
    earlier: TransformView,
    class_ref: Option<BoundIdentifierView>,
    base: nat,
)
    requires
        later.version == DecoratorVersion::V202311,
        earlier.version == DecoratorVersion::V202203,
        later.state == earlier.state,
    ensures
        ({
            let a = helper_arguments(later, class_ref, base);
            let b = helper_arguments(earlier, class_ref, base);
            &&& a.len() >= 3 && b.len() >= 3
            &&& a[0] == b[0]
            &&& a[1] == b[2]
            &&& a[2] == b[1]
            &&& later.state.super_class is Some ==> a.last() == b.last()
        }),
{
}

/// The class is taken back from the helper if and only if the class itself has decorators.
pub proof fn class_is_taken_back_if_decorated(
    t: TransformView,
    binding: BoundIdentifierView,
    reference_id: nat,
    class_ref: Option<BoundIdentifierView>,
    base: nat,
)
    requires
        wf(t),
    ensures
        with_class_lhs(t, binding, reference_id).state.class_lhs == if 0
            < t.state.class_decorators.len() {
            seq![write_of(binding, reference_id)]
        } else {
            Seq::empty()
        },
        consumed(
            with_class_lhs(t, binding, reference_id),
            class_ref,
            base,
        ).state.class_lhs.len() == 0,
{
    if t.state.class_decorators.len() > 0 {
        assert(t.state.class_lhs.push(write_of(binding, reference_id)) =~= seq![
            write_of(binding, reference_id),
        ]);
    } else {
        assert(t.state.class_lhs =~= Seq::empty());
    }
}

proof fn lemma_first_constructor_is_first(body: Seq<ClassElementView>)
    ensures
        0 <= first_constructor(body) <= body.len(),
        first_constructor(body) < body.len() ==> is_constructor(body[first_constructor(body)]),
        forall|i: int| 0 <= i < first_constructor(body) ==> !is_constructor(#[trigger] body[i]),
    decreases body.len(),
{
    if body.len() > 0 && !is_constructor(body[0]) {
        lemma_first_constructor_is_first(body.skip(1));
        assert forall|i: int| 0 <= i < first_constructor(body) implies !is_constructor(
            #[trigger] body[i],
        ) by {
            if i > 0 {
                assert(body[i] == body.skip(1)[i - 1]);
            }
        }
    }
}

proof fn lemma_first_instance_value_is_first(body: Seq<ClassElementView>)
    ensures
        0 <= first_instance_value(body) <= body.len(),
        first_instance_value(body) < body.len() ==> has_instance_value(
            body[first_instance_value(body)],
        ),
        forall|i: int|
            0 <= i < first_instance_value(body) ==> !has_instance_value(#[trigger] body[i]),
    decreases body.len(),
{
    if body.len() > 0 && !has_instance_value(body[0]) {
        lemma_first_instance_value_is_first(body.skip(1));
        assert forall|i: int| 0 <= i < first_instance_value(body) implies !has_instance_value(
            #[trigger] body[i],
        ) by {
            if i > 0 {
                assert(body[i] == body.skip(1)[i - 1]);
            }
        }
    }
}

proof fn lemma_first_super_call_is_first(body: Seq<StatementView>)
    ensures
        0 <= first_super_call(body) <= body.len(),
        first_super_call(body) < body.len() ==> is_super_call(body[first_super_call(body)]),
        forall|i: int| 0 <= i < first_super_call(body) ==> !is_super_call(#[trigger] body[i]),
    decreases body.len(),
{
    if body.len() > 0 && !is_super_call(body[0]) {
        lemma_first_super_call_is_first(body.skip(1));
        assert forall|i: int| 0 <= i < first_super_call(body) implies !is_super_call(
            #[trigger] body[i],
        ) by {
            if i > 0 {
                assert(body[i] == body.skip(1)[i - 1]);
            }
        }
    }
}

/// In a constructor the initialisers run right after the first call of the superclass constructor,
/// or first of all where there is none. The statements that were there stay in their order.
pub proof fn initializers_run_after_super(
    body: Seq<StatementView>,
    has_super: bool,
    init: StatementView,
)
    ensures
        ({
            let at = insertion_point(body, has_super);
            let after = body.insert(at, init);
            &&& 0 <= at <= body.len()
            &&& after[at] == init
            &&& after.remove(at) == body
            &&& at > 0 ==> has_super && is_super_call(after[at - 1])
            &&& forall|i: int| 0 <= i < at - 1 ==> !is_super_call(#[trigger] after[i])
            &&& at == 0 && has_super ==> forall|i: int|
                0 <= i < body.len() ==> !is_super_call(#[trigger] body[i])
        }),
{
    lemma_first_super_call_is_first(body);
    let at = insertion_point(body, has_super);
    assert(body.insert(at, init).remove(at) =~= body);
}

/// The initialisers of an instance are put into one place: one member changes, a field or accessor
/// with a value or the constructor, or one constructor is added before the others. All other
/// members stay as they are.
pub proof fn initializers_run_in_one_place(
    version: DecoratorVersion,
    body: Seq<ClassElementView>,
    has_super: bool,
    init: ExpressionView,
    scope_id: usize,
)
    ensures
        ({
            let after = with_init(version, body, has_super, init, scope_id);
            ||| exists|at: int|
                {
                    &&& 0 <= at < body.len()
                    &&& has_instance_value(body[at])
                    &&& version == DecoratorVersion::V202311
                    &&& after == #[trigger] body.update(at, with_init_before_value(body[at], init))
                }
            ||| exists|at: int|
                {
                    &&& 0 <= at < body.len()
                    &&& is_constructor(body[at])
                    &&& after == #[trigger] body.update(
                        at,
                        with_init_in_body(body[at], has_super, init),
                    )
                }
            ||| {
                &&& after.len() == body.len() + 1
                &&& is_constructor(after[0])
                &&& after.skip(1) == body
                &&& forall|i: int| 0 <= i < body.len() ==> !is_constructor(#[trigger] body[i])
            }
        }),
{
    lemma_first_instance_value_is_first(body);
    lemma_first_constructor_is_first(body);
    let after = with_init(version, body, has_super, init, scope_id);
    let value = first_instance_value(body);
    let constructor = first_constructor(body);
    if version == DecoratorVersion::V202311 && value < body.len() {
        assert(after == body.update(value, with_init_before_value(body[value], init)));
    } else if constructor < body.len() {
        assert(after == body.update(
            constructor,
            with_init_in_body(body[constructor], has_super, init),
        ));
    } else {
        assert(after.skip(1) =~= body);
    }
}

/// A class expression is wrapped once: nothing waits to be wrapped afterwards. The class is the
/// only argument of the wrapper, and the wrapper returns its parameter.
pub proof fn class_expression_is_wrapped_once(
    t: TransformView,
    class: ClassView,
    reference_id: nat,
    other: ExpressionView,
)
    requires
        wf(t),
        wraps(t, ExpressionView::ClassExpression(Box::new(class))),
    ensures
        wf(after_wrap(t)),
        !wraps(after_wrap(t), other),
        ({
            let class_ref = t.state.expr_wrap_class_ref->0;
            &&& wrapped(t.state, class, reference_id) matches ExpressionView::CallExpression(call)
            &&& call.arguments == seq![
                ArgumentView::Expression(ExpressionView::ClassExpression(Box::new(class))),
            ]
            &&& call.callee matches ExpressionView::ArrowFunctionExpression(arrow)
            &&& arrow.params == seq![bound(class_ref)]
            &&& arrow.body.last() == StatementView::ReturnStatement(
                read_of(class_ref, reference_id),
            )
        }),
{
}

/// Everything that is pending goes into the program, around its own statements, which stay in their
/// order. Nothing is left for a second time.
pub proof fn program_takes_what_is_pending(
    t: TransformView,
    program: ProgramView,
    other: ProgramView,
)
    ensures
        ({
            let before = declarations(t.extra_vars) + t.pre_class_inits;
            let after = program_left(t, program).body;
            &&& after.len() == before.len() + program.body.len() + t.state.extra_stmts.len()
            &&& after.subrange(before.len() as int, (before.len() + program.body.len()) as int)
                == program.body
            &&& after.take(before.len() as int) == before
            &&& after.skip((before.len() + program.body.len()) as int) == t.state.extra_stmts
        }),
        put_out(put_out(t)) == put_out(t),
        program_left(put_out(t), other) == other,
{
    let before = declarations(t.extra_vars) + t.pre_class_inits;
    let after = program_left(t, program).body;
    let n = before.len() as int;
    let m = (before.len() + program.body.len()) as int;
    assert(after.subrange(n, m) =~= program.body);
    assert(after.take(n) =~= before);
    assert(after.skip(m) =~= t.state.extra_stmts);
    assert(declarations(put_out(t).extra_vars) =~= Seq::empty());
    assert(program_left(put_out(t), other).body =~= other.body);
}

/// A transform for which nothing is pending, in the state or around it.
pub open spec fn is_idle(t: TransformView) -> bool {
    &&& wf(t)
    &&& !is_pending(t.state)
    &&& !t.state.needs_expr_wrap
    &&& t.extra_vars.len() == 0
    &&& t.pre_class_inits.len() == 0
    &&& t.state.extra_stmts.len() == 0
    &&& t.state.expr_extra_vars.len() == 0
    &&& t.state.expr_pre_class_inits.len() == 0
    &&& t.state.expr_extra_stmts.len() == 0
}

/// The transform with another superclass variable. That variable outlives its class.
pub open spec fn with_super(
    t: TransformView,
    super_class: Option<BoundIdentifierView>,
) -> TransformView {
    TransformView { state: ClassStateView { super_class, ..t.state }, ..t }
}

/// Whether the class itself or one of its members calls for something to be put out when the class
/// is left. A class expression of which only fields are decorated does not, in the later version.
pub open spec fn calls_for_exit(version: DecoratorVersion, class: ClassView) -> bool {
    ||| class.decorators.len() > 0
    ||| exists|i: int|
        {
            &&& 0 <= i < class.body.len()
            &&& is_target(#[trigger] class.body[i])
            &&& needs_initializer(version, is_field(class.body[i]))
        }
}

proof fn lemma_visited_all_awaits(
    p: Progress,
    members: Seq<ClassElementView>,
    supply: Supply,
)
    ensures
        ({
            let q = visited_all(p, members, supply).transform;
            &&& q.version == p.transform.version
            &&& q.state.super_class == p.transform.state.super_class
            &&& q.state.class_decorators == p.transform.state.class_decorators
            &&& awaits_exit(p.transform) ==> awaits_exit(q)
            &&& (exists|i: int|
                {
                    &&& 0 <= i < members.len()
                    &&& is_target(#[trigger] members[i])
                    &&& needs_initializer(p.transform.version, is_field(members[i]))
                }) ==> awaits_exit(q)
            &&& q.state.expr_extra_vars == p.transform.state.expr_extra_vars
            &&& q.state.expr_pre_class_inits == p.transform.state.expr_pre_class_inits
            &&& q.state.expr_extra_stmts == p.transform.state.expr_extra_stmts
            &&& q.state.extra_stmts == p.transform.state.extra_stmts
            &&& q.state.needs_expr_wrap == p.transform.state.needs_expr_wrap
            &&& q.state.expr_wrap_class_ref == p.transform.state.expr_wrap_class_ref
        }),
    decreases members.len(),
{
    if members.len() > 0 {
        let before = members.drop_last();
        lemma_visited_all_awaits(p, before, supply);
        let version = p.transform.version;
        if exists|i: int|
            {
                &&& 0 <= i < members.len()
                &&& is_target(#[trigger] members[i])
                &&& needs_initializer(version, is_field(members[i]))
            } {
            let i = choose|i: int|
                {
                    &&& 0 <= i < members.len()
                    &&& is_target(#[trigger] members[i])
                    &&& needs_initializer(version, is_field(members[i]))
                };
            if i < before.len() {
                assert(before[i] == members[i]);
            }
        }
    }
}

/// A class expression whose decorators call for it is put out completely when it is left and
/// wrapped: nothing stays pending, and of the class nothing is kept but the variable of its
/// superclass.
pub proof fn class_expression_leaves_nothing_behind(
    t: TransformView,
    class: ClassView,
    ctx: TraverseCtx<'_, ()>,
    mid_t: TransformView,
    mid_class: ClassView,
    mid_ctx: TraverseCtx<'_, ()>,
    new_t: TransformView,
    new_class: ClassView,
    new_ctx: TraverseCtx<'_, ()>,
)
    requires
        is_idle(t),
        class.class_type == ClassType::ClassExpression,
        calls_for_exit(t.version, class),
        class_entry(t, class, ctx, mid_t, mid_class, mid_ctx),
        class_exit(mid_t, mid_class, mid_ctx, new_t, new_class, new_ctx),
    ensures
        wraps(new_t, ExpressionView::ClassExpression(Box::new(new_class))),
        after_wrap(new_t) == with_super(t, mid_t.state.super_class),
        class.super_class is None ==> after_wrap(new_t) == t,
        is_idle(after_wrap(new_t)),
{
    assert(enters(class)) by {
        if class.decorators.len() == 0 {
            let i = choose|i: int|
                {
                    &&& 0 <= i < class.body.len()
                    &&& is_target(#[trigger] class.body[i])
                    &&& needs_initializer(t.version, is_field(class.body[i]))
                };
            assert(decorators_of(class.body[i]).len() > 0);
        }
    }
    let supply = supplied(ctx, mid_ctx);
    let p = class_entered(t, class, supply);
    lemma_visited_all_awaits(p, class.body, supply);
    lemma_class_transformed_wf(t, class, supply);
    assert(awaits_exit(mid_t));
    let last = after_wrap(new_t);
    let expected = with_super(t, mid_t.state.super_class);
    assert(last.state =~= expected.state);
    assert(last =~= expected);
    if class.super_class is None {
        assert(expected =~= t);
    }
}

/// A class declaration is put out completely when it is left: nothing stays pending, and of the
/// class nothing is kept but the variable of its superclass.
pub proof fn class_declaration_leaves_nothing_behind(
    t: TransformView,
    stmt: StatementView,
    ctx: TraverseCtx<'_, ()>,
    new_t: TransformView,
    new_stmt: StatementView,
    new_ctx: TraverseCtx<'_, ()>,
    result: Option<InsertionsView>,
)
    requires
        is_idle(t),
        replaces(stmt),
        statement_exit(t, stmt, ctx, new_t, new_stmt, new_ctx, result),
    ensures
        new_t == with_super(t, new_t.state.super_class),
        stmt->ClassDeclaration_0.super_class is None ==> new_t == t,
        is_idle(new_t),
{
    let class = *stmt->ClassDeclaration_0;
    let supply = supplied(ctx, new_ctx);
    let p = class_entered(t, class, supply);
    lemma_visited_all_awaits(p, class.body, supply);
    lemma_class_transformed_wf(t, class, supply);
    let expected = with_super(t, new_t.state.super_class);
    assert(new_t.state =~= expected.state);
    assert(new_t =~= expected);
    if class.super_class is None {
        assert(expected =~= t);
    }
}

proof fn lemma_visited_all_asks_uids(p: Progress, members: Seq<ClassElementView>, supply: Supply)
    requires
        forall|i: int| 0 <= i < p.requests.len() ==> (#[trigger] p.requests[i]) is Uid,
    ensures
        ({
            let q = visited_all(p, members, supply);
            forall|i: int| 0 <= i < q.requests.len() ==> (#[trigger] q.requests[i]) is Uid
        }),
    decreases members.len(),
{
    if members.len() > 0 {
        lemma_visited_all_asks_uids(p, members.drop_last(), supply);
    }
}

proof fn lemma_class_asks_uids(t: TransformView, class: ClassView, supply: Supply)
    ensures
        ({
            let p = class_transformed(t, class, supply);
            forall|i: int| 0 <= i < p.requests.len() ==> (#[trigger] p.requests[i]) is Uid
        }),
{
    lemma_visited_all_asks_uids(class_entered(t, class, supply), class.body, supply);
}

/// A class declaration becomes an assignment of the same class, without decorators, to a variable
/// that bears its name, or a unique name where the class has none and all names are short. The
/// assignment is the last reference that is made.
pub proof fn class_declaration_keeps_its_name(
    t: TransformView,
    class: ClassView,
    ctx: TraverseCtx<'_, ()>,
    new_t: TransformView,
    new_stmt: StatementView,
    new_ctx: TraverseCtx<'_, ()>,
    result: Option<InsertionsView>,
)
    requires
        is_decorated(class),
        statement_exit(
            t,
            StatementView::ClassDeclaration(Box::new(class)),
            ctx,
            new_t,
            new_stmt,
            new_ctx,
            result,
        ),
        class.name is None ==> short_names(ctx),
    ensures
        result is Some,
        ({
            let binding = result->0.binding;
            &&& match class.name {
                Some(name) => binding.name == name,
                None => is_uid(binding.name, "_Class"@) && !taken_names(ctx).contains(binding.name),
            }
            &&& new_stmt matches StatementView::ExpressionStatement(_, expression)
            &&& expression matches ExpressionView::AssignmentExpression(assign)
            &&& assign.left == write_of(binding, (references(new_ctx).len() - 1) as nat)
            &&& assign.right matches ExpressionView::ClassExpression(new_class)
            &&& new_class.source == class.source
            &&& new_class.name == class.name
            &&& new_class.class_type == ClassType::ClassExpression
            &&& new_class.decorators.len() == 0
        }),
{
    let supply = supplied(ctx, new_ctx);
    let requests = declaration_requests(t, class, supply);
    lemma_class_asks_uids(t, class, supply);
    assert(requests.last() == class_request(class));
    let n = requests.len() - 1;
    assert(requests[n] == class_request(class));
    assert(supply.fresh[n] == supply.fresh.last());
}

/// No two unique names that the transform gets are the same, where all names are short.
pub proof fn unique_names_stay_unique(
    a: TraverseCtx<'_, ()>,
    b: TraverseCtx<'_, ()>,
    c: TraverseCtx<'_, ()>,
    first: Seq<Request>,
    second: Seq<Request>,
    first_entries: Seq<Entry>,
    second_entries: Seq<Entry>,
    i: int,
    j: int,
)
    requires
        issued(a, b, first, first_entries),
        issued(b, c, second, second_entries),
        all_short(a, first),
        all_short(b, second),
        0 <= i < first.len(),
        0 <= j < second.len(),
        first[i] is Uid,
        second[j] is Uid,
    ensures
        handed_out(a, b)[i].name != handed_out(b, c)[j].name,
{
}

proof fn lemma_with_bindings_found(
    tables: Map<(nat, Seq<char>), nat>,
    scope_id: nat,
    variables: Seq<BoundIdentifierView>,
    i: int,
)
    requires
        0 <= i < variables.len(),
        forall|j: int| i < j < variables.len() ==> (#[trigger] variables[j]).name
            != variables[i].name,
    ensures
        with_bindings(tables, scope_id, variables).contains_pair(
            (scope_id, variables[i].name),
            variables[i].symbol_id,
        ),
    decreases variables.len(),
{
    if i < variables.len() - 1 {
        let before = variables.drop_last();
        assert forall|j: int| i < j < before.len() implies (#[trigger] before[j]).name
            != before[i].name by {
            assert(before[j] == variables[j]);
        }
        lemma_with_bindings_found(tables, scope_id, before, i);
        assert(variables[variables.len() - 1].name != variables[i].name);
    }
}

proof fn lemma_with_bindings_keeps(
    tables: Map<(nat, Seq<char>), nat>,
    scope_id: nat,
    variables: Seq<BoundIdentifierView>,
    key: (nat, Seq<char>),
)
    requires
        key.0 != scope_id || forall|j: int|
            0 <= j < variables.len() ==> (#[trigger] variables[j]).name != key.1,
    ensures
        with_bindings(tables, scope_id, variables).dom().contains(key) == tables.dom().contains(
            key,
        ),
        with_bindings(tables, scope_id, variables)[key] == tables[key],
    decreases variables.len(),
{
    if variables.len() > 0 {
        let before = variables.drop_last();
        if key.0 == scope_id {
            assert forall|j: int| 0 <= j < before.len() implies (#[trigger] before[j]).name
                != key.1 by {
                assert(before[j] == variables[j]);
            }
            assert(variables[variables.len() - 1].name != key.1);
        }
        lemma_with_bindings_keeps(tables, scope_id, before, key);
    }
}

/// Every variable that the transform gets is found by its name in the scope that it is hoisted to,
/// unless a later one has the same name. Nothing else changes in the tables of the scopes: what was
/// bound in another scope, or under another name, stays bound as it was.
pub proof fn variables_are_found_by_name(
    before: TraverseCtx<'_, ()>,
    after: TraverseCtx<'_, ()>,
    requests: Seq<Request>,
    entries: Seq<Entry>,
    i: int,
    key: (nat, Seq<char>),
)
    requires
        issued(before, after, requests, entries),
    ensures
        ({
            let fresh = handed_out(before, after);
            let scope_id = hoist_scope(before);
            &&& 0 <= i < fresh.len() && (forall|j: int|
                i < j < fresh.len() ==> (#[trigger] fresh[j]).name != fresh[i].name)
                ==> bindings(after).contains_pair((scope_id, fresh[i].name), fresh[i].symbol_id)
            &&& key.0 != scope_id || (forall|j: int|
                0 <= j < fresh.len() ==> (#[trigger] fresh[j]).name != key.1) ==> {
                &&& bindings(after).dom().contains(key) == bindings(before).dom().contains(key)
                &&& bindings(after)[key] == bindings(before)[key]
            }
        }),
{
    let fresh = handed_out(before, after);
    let scope_id = hoist_scope(before);
    if 0 <= i < fresh.len() && (forall|j: int|
        i < j < fresh.len() ==> (#[trigger] fresh[j]).name != fresh[i].name) {
        lemma_with_bindings_found(bindings(before), scope_id, fresh, i);
    }
    if key.0 != scope_id || (forall|j: int|
        0 <= j < fresh.len() ==> (#[trigger] fresh[j]).name != key.1) {
        lemma_with_bindings_keeps(bindings(before), scope_id, fresh, key);
    }
}

/// What is visited, in the course of a traversal.
pub enum Visit {
    EnterClass,
    ExitClass,
    ExitExpression,
    ExitStatement,
}

/// Whether a visit can take the transform from one state to the other.
pub open spec fn is_step(t: TransformView, visit: Visit, new_t: TransformView) -> bool {
    match visit {
        Visit::EnterClass => exists|
            class: ClassView,
            ctx: TraverseCtx<'_, ()>,
            new_class: ClassView,
            new_ctx: TraverseCtx<'_, ()>,
        | #[trigger] class_entry(t, class, ctx, new_t, new_class, new_ctx),
        Visit::ExitClass => exists|
            class: ClassView,
            ctx: TraverseCtx<'_, ()>,
            new_class: ClassView,
            new_ctx: TraverseCtx<'_, ()>,
        | #[trigger] class_exit(t, class, ctx, new_t, new_class, new_ctx),
        Visit::ExitExpression => exists|
            expr: ExpressionView,
            ctx: TraverseCtx<'_, ()>,
            new_expr: ExpressionView,
            new_ctx: TraverseCtx<'_, ()>,
        | #[trigger] expression_exit(t, expr, ctx, new_t, new_expr, new_ctx),
        Visit::ExitStatement => exists|
            stmt: StatementView,
            ctx: TraverseCtx<'_, ()>,
            new_stmt: StatementView,
            new_ctx: TraverseCtx<'_, ()>,
            result: Option<InsertionsView>,
        | #[trigger] statement_exit(t, stmt, ctx, new_t, new_stmt, new_ctx, result),
    }
}

/// Whether the visits lead from state to state.
pub open spec fn is_course(states: Seq<TransformView>, visits: Seq<Visit>) -> bool {
    &&& states.len() == visits.len() + 1
    &&& forall|i: int|
        0 <= i < visits.len() ==> is_step(states[i], #[trigger] visits[i], states[i + 1])
}

/// Whether every class that is entered from here on is left.
pub open spec fn is_balanced(visits: Seq<Visit>, from: int) -> bool {
    forall|i: int|
        from <= i < visits.len() && (#[trigger] visits[i]) is EnterClass ==> exists|j: int|
            i < j < visits.len() && (#[trigger] visits[j]) is ExitClass
}

proof fn lemma_step_keeps_applied(t: TransformView, visit: Visit, new_t: TransformView)
    requires
        is_step(t, visit, new_t),
        !(visit is EnterClass),
        t.state.class_decorators.len() == 0 || visit is ExitClass,
    ensures
        new_t.state.class_decorators.len() == 0,
{
}

proof fn lemma_applied_at_the_end(states: Seq<TransformView>, visits: Seq<Visit>, from: int)
    requires
        is_course(states, visits),
        0 <= from <= visits.len(),
        is_balanced(visits, from),
        states[from].state.class_decorators.len() == 0,
    ensures
        states.last().state.class_decorators.len() == 0,
    decreases visits.len() - from,
{
    if from < visits.len() {
        if visits[from] is EnterClass {
            let j = choose|j: int| from < j < visits.len() && (#[trigger] visits[j]) is ExitClass;
            lemma_step_keeps_applied(states[j], visits[j], states[j + 1]);
            lemma_applied_at_the_end(states, visits, j + 1);
        } else {
            lemma_step_keeps_applied(states[from], visits[from], states[from + 1]);
            lemma_applied_at_the_end(states, visits, from + 1);
        }
    }
}

/// When a program has been visited in which every class that was entered was also left, no
/// decorator of a class waits to be applied.
pub proof fn class_decorators_are_applied_in_the_end(
    states: Seq<TransformView>,
    visits: Seq<Visit>,
)
    requires
        is_course(states, visits),
        is_balanced(visits, 0),
        states[0].state.class_decorators.len() == 0,
    ensures
        states.last().state.class_decorators.len() == 0,
{
    lemma_applied_at_the_end(states, visits, 0);
}

} // verus!
