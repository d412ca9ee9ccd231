//! What becomes of the nodes of a program.
use super::applying::{mention, one};
use super::members::decorated_classes_are_found;
use crate::ast::{ClassType, Span};
use crate::context::{current_scope, issued, references, scopes, supplied, symbols, Entry, Request};
use crate::decorator::apply::{consumed, consumed_entries};
use crate::decorator::inject::{class_processed, makes_scope, processed_entries};
use crate::decorator::transform::{class_stripped, class_transformed};
use crate::decorator::visit::{
    class_entry, class_exit, declarations, declaration_entered, entering_entries, expression_exit,
    lhs_entries, program_left, put_out, replacing_entries, set_aside, statement_exit,
    InsertionsView,
};
use crate::decorator::{empty_state, ClassStateView, TransformView};
use crate::model::{
    ArgumentView, AssignmentTargetView, BoundIdentifierView, ClassElementView, ClassView,
    ExpressionView, IdentifierView, ProgramView, StatementView,
};
use oxc_traverse::TraverseCtx;
use vstd::prelude::*;

verus! {

/// Whether a class has a decorator, or one of its members has.
pub open spec fn has_decorators(class: ClassView) -> bool {
    ||| class.decorators.len() > 0
    ||| exists|i: int|
        0 <= i < class.body.len() && match #[trigger] class.body[i] {
            ClassElementView::Source(_) => false,
            ClassElementView::MethodDefinition(m) => m.decorators.len() > 0,
            ClassElementView::PropertyDefinition(p) => p.decorators.len() > 0,
            ClassElementView::AccessorProperty(a) => a.decorators.len() > 0,
        }
}

/// The variable where it is declared.
pub open spec fn declared(b: BoundIdentifierView) -> IdentifierView {
    IdentifierView { name: b.name, symbol_id: Some(b.symbol_id), reference_id: None }
}

/// The variable with this number, as the context knows it.
pub open spec fn variable(ctx: TraverseCtx<'_, ()>, symbol_id: nat) -> BoundIdentifierView {
    BoundIdentifierView { name: symbols(ctx)[symbol_id as int].0, symbol_id }
}

/// Whether a list begins with the declarations of these variables, each with its initial value.
pub open spec fn declares(
    list: Seq<StatementView>,
    vars: Seq<(BoundIdentifierView, Option<ExpressionView>)>,
) -> bool {
    &&& list.len() >= vars.len()
    &&& forall|i: int|
        0 <= i < vars.len() ==> #[trigger] list[i] == StatementView::VariableDeclaration(
            declared(vars[i].0),
            vars[i].1,
        )
}

/// Whether a list has these statements from `at` on.
pub open spec fn holds(list: Seq<StatementView>, at: int, part: Seq<StatementView>) -> bool {
    &&& list.len() >= at + part.len()
    &&& forall|i: int| 0 <= i < part.len() ==> list[at + i] == #[trigger] part[i]
}

/// The scopes, with one more where one is made: a function and a constructor in the current scope,
/// strict if that is.
pub open spec fn scopes_with(ctx: TraverseCtx<'_, ()>, more: bool) -> Seq<(Option<nat>, u16)> {
    if more {
        scopes(ctx).push(
            (Some(current_scope(ctx)), 68u16 | (scopes(ctx)[current_scope(ctx) as int].1 & 1u16)),
        )
    } else {
        scopes(ctx)
    }
}

/// The transform with one more variable that takes the decorated class, if the class itself has
/// decorators that wait.
pub open spec fn takes_class(
    t: TransformView,
    b: BoundIdentifierView,
    reference_id: nat,
) -> TransformView {
    TransformView {
        state: ClassStateView {
            class_lhs: if t.state.class_decorators.len() > 0 {
                t.state.class_lhs.push(AssignmentTargetView::Identifier(mention(b, reference_id)))
            } else {
                t.state.class_lhs
            },
            ..t.state
        },
        ..t
    }
}

/// The references that the body of a class calls for: a read of the function that runs the
/// initialisers of an instance, where there is one, and those of what waits.
pub open spec fn entries_of_body(
    state: ClassStateView,
    class_ref: Option<BoundIdentifierView>,
) -> Seq<Entry> {
    match state.init_proto {
        Some(b) => seq![Entry { symbol_id: b.symbol_id, flags: 1 }] + consumed_entries(
            state,
            class_ref,
        ),
        None => consumed_entries(state, class_ref),
    }
}

/// A write of the variable, where the condition holds.
pub open spec fn writes(b: BoundIdentifierView, when: bool) -> Seq<Entry> {
    if when {
        seq![Entry { symbol_id: b.symbol_id, flags: 2 }]
    } else {
        Seq::empty()
    }
}

proof fn lemma_entries_of_body(state: ClassStateView, class_ref: Option<BoundIdentifierView>)
    ensures
        processed_entries(state, class_ref) == entries_of_body(state, class_ref),
        entries_of_body(state, class_ref).len() == one(state.init_proto is Some)
            + consumed_entries(state, class_ref).len(),
{
    if state.init_proto is None {
        assert(Seq::<Entry>::empty() + consumed_entries(state, class_ref) =~= consumed_entries(
            state,
            class_ref,
        ));
    }
}

proof fn lemma_declares(
    list: Seq<StatementView>,
    vars: Seq<(BoundIdentifierView, Option<ExpressionView>)>,
    rest: Seq<StatementView>,
)
    requires
        list == declarations(vars) + rest,
    ensures
        declares(list, vars),
        list.len() == vars.len() + rest.len(),
        holds(list, vars.len() as int, rest),
{
    assert(declarations(vars).len() == vars.len());
    assert forall|i: int| 0 <= i < vars.len() implies #[trigger] list[i]
        == StatementView::VariableDeclaration(declared(vars[i].0), vars[i].1) by {
        assert(list[i] == declarations(vars)[i]);
    }
}

/// At first nothing is known of any class, and nothing waits.
pub proof fn nothing_waits_at_first()
    ensures
        ({
            let state = empty_state();
            &&& state.init_proto is None
            &&& state.init_static is None
            &&& state.init_proto_args.len() == 0
            &&& state.init_static_args.len() == 0
            &&& state.static_non_field_lhs.len() == 0
            &&& state.proto_non_field_lhs.len() == 0
            &&& state.static_field_lhs.len() == 0
            &&& state.proto_field_lhs.len() == 0
            &&& state.class_decorators.len() == 0
            &&& !state.class_decorators_have_this
            &&& state.class_lhs.len() == 0
            &&& state.super_class is None
            &&& state.instance_brand is None
            &&& state.extra_stmts.len() == 0
            &&& !state.needs_expr_wrap
            &&& state.expr_wrap_class_ref is None
            &&& state.expr_extra_vars.len() == 0
            &&& state.expr_pre_class_inits.len() == 0
            &&& state.expr_extra_stmts.len() == 0
        }),
{
}

/// A class expression is taken over when it is entered, if and only if it or one of its members has
/// a decorator. A class declaration is not. No scope is made.
pub proof fn decorated_class_expressions_are_taken_over(
    t: TransformView,
    class: ClassView,
    ctx: TraverseCtx<'_, ()>,
    new_t: TransformView,
    new_class: ClassView,
    new_ctx: TraverseCtx<'_, ()>,
)
    requires
        class_entry(t, class, ctx, new_t, new_class, new_ctx),
    ensures
        scopes(new_ctx) == scopes(ctx),
        class.class_type == ClassType::ClassExpression && has_decorators(class) ==> {
            let p = class_transformed(t, class, supplied(ctx, new_ctx));
            &&& new_t == p.transform
            &&& new_class == class_stripped(class, supplied(ctx, new_ctx))
            &&& issued(ctx, new_ctx, p.requests, p.entries)
        },
        class.class_type == ClassType::ClassDeclaration || !has_decorators(class) ==> {
            &&& new_t == t
            &&& new_class == class
            &&& issued(ctx, new_ctx, Seq::empty(), Seq::empty())
        },
{
    decorated_classes_are_found(class);
}

/// Nothing happens where a class is left for which nothing waits.
pub proof fn other_classes_are_left_alone(
    t: TransformView,
    class: ClassView,
    ctx: TraverseCtx<'_, ()>,
    new_t: TransformView,
    new_class: ClassView,
    new_ctx: TraverseCtx<'_, ()>,
)
    requires
        class_exit(t, class, ctx, new_t, new_class, new_ctx),
        t.state.init_proto is None,
        t.state.init_static is None,
        t.state.class_decorators.len() == 0,
    ensures
        new_t == t,
        new_class == class,
        issued(ctx, new_ctx, Seq::empty(), Seq::empty()),
        scopes(new_ctx) == scopes(ctx),
{
}

/// What waits with a class expression is set aside for its wrapper: the declarations, the
/// statements that come first, and a new variable for the class, which also takes the class from
/// its decorators, if it has any itself.
pub open spec fn apart(
    t: TransformView,
    class_ref: BoundIdentifierView,
    reference_id: nat,
) -> TransformView {
    let u = takes_class(t, class_ref, reference_id);
    TransformView {
        version: t.version,
        extra_vars: Seq::empty(),
        pre_class_inits: Seq::empty(),
        state: ClassStateView {
            expr_extra_vars: t.extra_vars,
            expr_pre_class_inits: t.pre_class_inits,
            expr_wrap_class_ref: Some(class_ref),
            needs_expr_wrap: true,
            ..u.state
        },
    }
}

/// A class expression for which something waits gets a new variable and is wrapped later: what
/// waits is set aside, the initialisers of its instances are put into its body, and the statements
/// that apply its decorators go to the wrapper, not to where statements after a class go.
pub proof fn class_expressions_are_prepared_for_their_wrapper(
    t: TransformView,
    class: ClassView,
    ctx: TraverseCtx<'_, ()>,
    new_t: TransformView,
    new_class: ClassView,
    new_ctx: TraverseCtx<'_, ()>,
)
    requires
        class_exit(t, class, ctx, new_t, new_class, new_ctx),
        class.class_type == ClassType::ClassExpression,
        t.state.init_proto is Some || t.state.init_static is Some || t.state.class_decorators.len()
            > 0,
    ensures
        ({
            let base = references(ctx).len();
            let class_ref = variable(new_ctx, symbols(ctx).len());
            let decorated = t.state.class_decorators.len() > 0;
            let aside = apart(t, class_ref, base);
            let from = base + one(decorated);
            let left = consumed(aside, Some(class_ref), from + one(t.state.init_proto is Some));
            &&& new_t.version == t.version
            &&& new_t.extra_vars == left.extra_vars
            &&& new_t.pre_class_inits == left.pre_class_inits
            &&& new_t.state == ClassStateView {
                expr_extra_stmts: left.state.extra_stmts,
                extra_stmts: Seq::empty(),
                ..left.state
            }
            &&& new_class == class_processed(aside, class, scopes(ctx).len() as usize, from)
            &&& issued(
                ctx,
                new_ctx,
                seq![Request::Uid("_class"@)],
                writes(class_ref, decorated) + entries_of_body(aside.state, Some(class_ref)),
            )
            &&& scopes(new_ctx) == scopes_with(ctx, makes_scope(aside, class))
        }),
{
    let base = references(ctx).len();
    let class_ref = supplied(ctx, new_ctx).fresh[0];
    assert(symbols(new_ctx).len() == symbols(ctx).len() + 1);
    assert(class_ref == variable(new_ctx, symbols(ctx).len()));
    let aside = apart(t, class_ref, base);
    assert(set_aside(t, class_ref, base) =~= aside);
    assert(lhs_entries(t, class_ref) =~= writes(class_ref, t.state.class_decorators.len() > 0));
    lemma_entries_of_body(aside.state, Some(class_ref));
}

/// A class declaration for which something waits keeps its place: the initialisers of its instances
/// are put into its body, and what waits is applied to `this`. No variable is made.
pub proof fn class_declarations_are_processed(
    t: TransformView,
    class: ClassView,
    ctx: TraverseCtx<'_, ()>,
    new_t: TransformView,
    new_class: ClassView,
    new_ctx: TraverseCtx<'_, ()>,
)
    requires
        class_exit(t, class, ctx, new_t, new_class, new_ctx),
        class.class_type == ClassType::ClassDeclaration,
        t.state.init_proto is Some || t.state.init_static is Some || t.state.class_decorators.len()
            > 0,
    ensures
        ({
            let base = references(ctx).len();
            &&& new_t == consumed(t, None, base + one(t.state.init_proto is Some))
            &&& new_class == class_processed(t, class, scopes(ctx).len() as usize, base)
            &&& issued(ctx, new_ctx, Seq::empty(), entries_of_body(t.state, None))
            &&& scopes(new_ctx) == scopes_with(ctx, makes_scope(t, class))
        }),
{
    lemma_entries_of_body(t.state, None);
}

/// A class expression that waits for its wrapper becomes the call, on the class, of an arrow
/// function whose one parameter is the variable of the class. In it stand the declarations that
/// were set aside, then the statements that come first, then those that apply the decorators, and
/// at the end the variable is returned. After that nothing is set aside. Any other expression, and
/// one for which nothing waits, stays as it is.
pub proof fn class_expressions_are_wrapped(
    t: TransformView,
    expr: ExpressionView,
    ctx: TraverseCtx<'_, ()>,
    new_t: TransformView,
    new_expr: ExpressionView,
    new_ctx: TraverseCtx<'_, ()>,
)
    requires
        expression_exit(t, expr, ctx, new_t, new_expr, new_ctx),
    ensures
        scopes(new_ctx) == scopes(ctx),
        !t.state.needs_expr_wrap || !(expr is ClassExpression) ==> {
            &&& new_t == t
            &&& new_expr == expr
            &&& issued(ctx, new_ctx, Seq::empty(), Seq::empty())
        },
        t.state.needs_expr_wrap && expr is ClassExpression ==> {
            let state = t.state;
            let b = state.expr_wrap_class_ref->0;
            let vars = state.expr_extra_vars.len() as int;
            let first = vars + state.expr_pre_class_inits.len();
            let end = first + state.expr_extra_stmts.len();
            &&& new_t.version == t.version
            &&& new_t.extra_vars == t.extra_vars
            &&& new_t.pre_class_inits == t.pre_class_inits
            &&& new_t.state == ClassStateView {
                needs_expr_wrap: false,
                expr_wrap_class_ref: None,
                expr_extra_vars: Seq::empty(),
                expr_pre_class_inits: Seq::empty(),
                expr_extra_stmts: Seq::empty(),
                ..state
            }
            &&& issued(
                ctx,
                new_ctx,
                Seq::empty(),
                seq![Entry { symbol_id: b.symbol_id, flags: 1 }],
            )
            &&& new_expr matches ExpressionView::CallExpression(call)
            &&& call.source is None
            &&& call.span == Span { start: 0, end: 0 }
            &&& call.arguments.len() == 1
            &&& call.arguments[0] == ArgumentView::Expression(expr)
            &&& call.callee matches ExpressionView::ArrowFunctionExpression(f)
            &&& f.params.len() == 1
            &&& f.params[0] == declared(b)
            &&& f.body.len() == end + 1
            &&& declares(f.body, state.expr_extra_vars)
            &&& holds(f.body, vars, state.expr_pre_class_inits)
            &&& holds(f.body, first, state.expr_extra_stmts)
            &&& f.body[end] == StatementView::ReturnStatement(
                ExpressionView::Identifier(mention(b, references(ctx).len())),
            )
        },
{
    if t.state.needs_expr_wrap && expr is ClassExpression {
        let state = t.state;
        let call = new_expr->CallExpression_0;
        let body = call.callee->ArrowFunctionExpression_0.body;
        let last = StatementView::ReturnStatement(
            ExpressionView::Identifier(
                mention(state.expr_wrap_class_ref->0, references(ctx).len()),
            ),
        );
        let rest = state.expr_pre_class_inits + state.expr_extra_stmts + seq![last];
        assert(body =~= declarations(state.expr_extra_vars) + rest);
        lemma_declares(body, state.expr_extra_vars, rest);
        let vars = state.expr_extra_vars.len() as int;
        let first = vars + state.expr_pre_class_inits.len();
        assert forall|i: int| 0 <= i < state.expr_pre_class_inits.len() implies body[vars + i]
            == #[trigger] state.expr_pre_class_inits[i] by {
            assert(rest[i] == state.expr_pre_class_inits[i]);
        }
        assert forall|i: int| 0 <= i < state.expr_extra_stmts.len() implies body[first + i]
            == #[trigger] state.expr_extra_stmts[i] by {
            assert(rest[state.expr_pre_class_inits.len() + i] == state.expr_extra_stmts[i]);
        }
    }
}

/// A statement other than the declaration of a class with decorators, its own or its members',
/// stays as it is.
pub proof fn other_statements_are_left_alone(
    t: TransformView,
    stmt: StatementView,
    ctx: TraverseCtx<'_, ()>,
    new_t: TransformView,
    new_stmt: StatementView,
    new_ctx: TraverseCtx<'_, ()>,
    result: Option<InsertionsView>,
)
    requires
        statement_exit(t, stmt, ctx, new_t, new_stmt, new_ctx, result),
        stmt matches StatementView::ClassDeclaration(class) ==> !has_decorators(*class),
    ensures
        new_t == t,
        new_stmt == stmt,
        result is None,
        issued(ctx, new_ctx, Seq::empty(), Seq::empty()),
        scopes(new_ctx) == scopes(ctx),
{
    if let StatementView::ClassDeclaration(class) = stmt {
        decorated_classes_are_found(*class);
    }
}

/// Everything that is to be put around a class is put out: before it the declarations of variables
/// with their values, then the statements that come first, and after it those that follow.
pub open spec fn surrounds(
    t: TransformView,
    before: Seq<StatementView>,
    after: Seq<StatementView>,
) -> bool {
    &&& before.len() == t.extra_vars.len() + t.pre_class_inits.len()
    &&& declares(before, t.extra_vars)
    &&& holds(before, t.extra_vars.len() as int, t.pre_class_inits)
    &&& after == t.state.extra_stmts
}

/// Whether nothing is left to put out, and all else is as it was.
pub open spec fn is_put_out(t: TransformView, new_t: TransformView) -> bool {
    &&& new_t.version == t.version
    &&& new_t.extra_vars.len() == 0
    &&& new_t.pre_class_inits.len() == 0
    &&& new_t.state == ClassStateView { extra_stmts: Seq::empty(), ..t.state }
}

/// The declaration of a class with decorators, its own or its members', becomes an assignment of the
/// class, as an expression, to a variable. That is the last one made, of the same name or, for a
/// class without a name, a unique one made from `_Class`, and it stands for the class where its
/// decorators are applied. The class is taken over first, then the initialisers of its instances
/// are put into its body, then its decorators are applied. What is to stand around the class is
/// handed out, and nothing of it is left.
#[verifier::spinoff_prover]
#[verifier::rlimit(40)]
pub proof fn class_declarations_become_assignments(
    t: TransformView,
    stmt: StatementView,
    ctx: TraverseCtx<'_, ()>,
    new_t: TransformView,
    new_stmt: StatementView,
    new_ctx: TraverseCtx<'_, ()>,
    result: Option<InsertionsView>,
)
    requires
        statement_exit(t, stmt, ctx, new_t, new_stmt, new_ctx, result),
        stmt is ClassDeclaration,
        has_decorators(*stmt->ClassDeclaration_0),
    ensures
        ({
            let class = *stmt->ClassDeclaration_0;
            let supply = supplied(ctx, new_ctx);
            let p = class_transformed(t, class, supply);
            let b = variable(new_ctx, (symbols(new_ctx).len() - 1) as nat);
            let from = references(ctx).len() + p.entries.len();
            let decorated = p.transform.state.class_decorators.len() > 0;
            let entered = takes_class(p.transform, b, from);
            let body_from = from + one(decorated);
            let stripped = class_stripped(class, supply);
            let processed = class_processed(
                entered,
                stripped,
                scopes(ctx).len() as usize,
                body_from,
            );
            let left = consumed(
                entered,
                Some(b),
                body_from + one(entered.state.init_proto is Some),
            );
            let entries = p.entries + writes(b, decorated) + entries_of_body(entered.state, Some(b));
            // The statement.
            &&& new_stmt matches StatementView::ExpressionStatement(span, e)
            &&& span == Span { start: 0, end: 0 }
            &&& e matches ExpressionView::AssignmentExpression(assignment)
            &&& assignment.left == AssignmentTargetView::Identifier(
                mention(b, references(ctx).len() + entries.len()),
            )
            &&& assignment.right matches ExpressionView::ClassExpression(new_class)
            &&& *new_class == ClassView { class_type: ClassType::ClassExpression, ..processed }
            // What stands around it.
            &&& result matches Some(r)
            &&& r.binding == b
            &&& surrounds(left, r.before, r.after)
            &&& is_put_out(left, new_t)
            // What the context was asked for.
            &&& issued(
                ctx,
                new_ctx,
                p.requests.push(
                    match class.name {
                        Some(name) => Request::Binding(name),
                        None => Request::Uid("_Class"@),
                    },
                ),
                entries + writes(b, true),
            )
            &&& scopes(new_ctx) == scopes_with(ctx, makes_scope(entered, stripped))
        }),
{
    let class = *stmt->ClassDeclaration_0;
    decorated_classes_are_found(class);
    let supply = supplied(ctx, new_ctx);
    let p = class_transformed(t, class, supply);
    let b = variable(new_ctx, (symbols(new_ctx).len() - 1) as nat);
    assert(symbols(new_ctx).len() == symbols(ctx).len() + p.requests.len() + 1);
    assert(supply.fresh.last() == b);
    let from = references(ctx).len() + p.entries.len();
    let decorated = p.transform.state.class_decorators.len() > 0;
    let entered = takes_class(p.transform, b, from);
    assert(declaration_entered(t, class, supply) =~= entered);
    assert(lhs_entries(p.transform, b) =~= writes(b, decorated));
    lemma_entries_of_body(entered.state, Some(b));
    let entries = p.entries + writes(b, decorated) + entries_of_body(entered.state, Some(b));
    assert(entering_entries(t, class, supply) == p.entries + writes(b, decorated));
    assert(replacing_entries(t, class, supply) == entries);
    assert(entries.push(Entry { symbol_id: b.symbol_id, flags: 2 }) =~= entries + writes(b, true));
    let left = consumed(
        entered,
        Some(b),
        from + one(decorated) + one(entered.state.init_proto is Some),
    );
    let before = result->0.before;
    assert(before == declarations(left.extra_vars) + left.pre_class_inits);
    lemma_declares(before, left.extra_vars, left.pre_class_inits);
}

/// At the end the program gets everything that still waits to be put out, in front of it the
/// declarations of variables and the statements that come first, behind it those that follow. Its
/// own statements stay in their order, and nothing is left to put out.
pub proof fn programs_get_what_is_left(t: TransformView, program: ProgramView)
    ensures
        ({
            let body = program_left(t, program).body;
            let vars = t.extra_vars.len() as int;
            let first = vars + t.pre_class_inits.len();
            let end = first + program.body.len();
            &&& body.len() == end + t.state.extra_stmts.len()
            &&& declares(body, t.extra_vars)
            &&& holds(body, vars, t.pre_class_inits)
            &&& holds(body, first, program.body)
            &&& holds(body, end, t.state.extra_stmts)
        }),
        is_put_out(t, put_out(t)),
{
    let body = program_left(t, program).body;
    let rest = t.pre_class_inits + program.body + t.state.extra_stmts;
    assert(body =~= declarations(t.extra_vars) + rest);
    lemma_declares(body, t.extra_vars, rest);
    let vars = t.extra_vars.len() as int;
    let first = vars + t.pre_class_inits.len();
    let end = first + program.body.len();
    assert forall|i: int| 0 <= i < t.pre_class_inits.len() implies body[vars + i]
        == #[trigger] t.pre_class_inits[i] by {
        assert(rest[i] == t.pre_class_inits[i]);
    }
    assert forall|i: int| 0 <= i < program.body.len() implies body[first + i]
        == #[trigger] program.body[i] by {
        assert(rest[t.pre_class_inits.len() + i] == program.body[i]);
    }
    assert forall|i: int| 0 <= i < t.state.extra_stmts.len() implies body[end + i]
        == #[trigger] t.state.extra_stmts[i] by {
        assert(rest[t.pre_class_inits.len() + program.body.len() + i] == t.state.extra_stmts[i]);
    }
}

} // verus!
