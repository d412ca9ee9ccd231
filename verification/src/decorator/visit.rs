//! What the transform does at the nodes of a program, in the order of a traversal.
use super::apply::{can_apply, lemma_can_apply, lemma_can_apply_with};
use super::inject::{
    body_left, class_processed, makes_scope, processed_entries, scopes_after, PROCESS_REFERENCES,
};
use super::members::is_decorated;
use super::transform::{
    class_entered, class_stripped, class_transformed, lemma_class_needs,
    lemma_class_transformed_prefix, references_needed, symbols_needed, visited, visited_all,
    with_more, Progress,
};
use super::{option_expression_view, vars_view, ClassStateView, Tc39Decorator, TransformView};
use crate::ast::{
    BoundIdentifier, Class, ClassType, Expression, Function, Identifier, Program, Statement,
};
use crate::builder::{
    assign_of, assignment, bound, call_one, call_with, expression_statement, read_of, statement_of,
    var_declaration, var_of, write_of,
};
use crate::context::{
    can_refer, can_refer_to, create_uid, create_var, handed_out, has_room, has_scope_room, issued,
    lemma_can_refer, lemma_fresh_can_refer, lemma_issued_append, lemma_issued_more,
    lemma_issued_nothing, may_refer_to, read_entry, references, room, scope_room, scopes, supplied,
    symbols, write_entry, Entry, Request, Supply, MAX_RESOLVED, MAX_SYMBOLS,
};
use crate::model::{
    function_view, identifiers_view, statements_view, BoundIdentifierView, ClassElementView,
    ClassView, ExpressionView, FunctionView, ProgramView, StatementView,
};
use oxc_traverse::TraverseCtx;
use vstd::prelude::*;
use vstd::utf8::encode_utf8;

verus! {

/// What holds of the transform between two nodes.
pub open spec fn wf(t: TransformView) -> bool {
    let state = t.state;
    // A class expression that waits to be wrapped has a variable to be wrapped in.
    &&& state.needs_expr_wrap == (state.expr_wrap_class_ref is Some)
    // Every decorated member has one description, and one variable for its initialisers.
    &&& state.init_static_args.len() == state.static_non_field_lhs.len()
        + state.static_field_lhs.len()
    &&& state.init_proto_args.len() == state.proto_non_field_lhs.len() + state.proto_field_lhs.len()
    &&& forall|i: int|
        0 <= i < state.init_static_args.len() ==> (#[trigger] state.init_static_args[i]) is Some
    &&& forall|i: int|
        0 <= i < state.init_proto_args.len() ==> (#[trigger] state.init_proto_args[i]) is Some
    &&& forall|i: int|
        0 <= i < state.class_decorators.len() ==> (#[trigger] state.class_decorators[i]) is Some
    // Only a decorated member calls for a function that runs initialisers.
    &&& state.init_static is Some ==> state.init_static_args.len() > 0
    &&& state.init_proto is Some ==> state.init_proto_args.len() > 0
    // No class is put out without its decorators.
    &&& state.class_lhs.len() == 0
    &&& state.instance_brand is None
    &&& !state.class_decorators_have_this
}

/// Whether the class is one that is transformed when it is entered.
pub open spec fn enters(class: ClassView) -> bool {
    is_decorated(class) && class.class_type != ClassType::ClassDeclaration
}

/// Whether there is anything to put out for a class when it is left.
pub open spec fn awaits_exit(t: TransformView) -> bool {
    ||| t.state.init_proto is Some
    ||| t.state.init_static is Some
    ||| t.state.class_decorators.len() > 0
}

/// The variable takes the decorated class, if the class itself has decorators.
pub open spec fn with_class_lhs(
    t: TransformView,
    binding: BoundIdentifierView,
    reference_id: nat,
) -> TransformView {
    if t.state.class_decorators.len() > 0 {
        TransformView {
            state: ClassStateView {
                class_lhs: t.state.class_lhs.push(write_of(binding, reference_id)),
                ..t.state
            },
            ..t
        }
    } else {
        t
    }
}

/// The reference by which the variable takes the decorated class, if it does.
pub open spec fn lhs_entries(t: TransformView, binding: BoundIdentifierView) -> Seq<Entry> {
    if t.state.class_decorators.len() > 0 {
        seq![write_entry(binding)]
    } else {
        Seq::empty()
    }
}

/// The transform with what is pending for a class expression set aside for its wrapper.
pub open spec fn set_aside(
    t: TransformView,
    class_ref: BoundIdentifierView,
    reference_id: nat,
) -> TransformView {
    with_class_lhs(
        TransformView {
            extra_vars: Seq::empty(),
            pre_class_inits: Seq::empty(),
            state: ClassStateView {
                expr_extra_vars: t.extra_vars,
                expr_pre_class_inits: t.pre_class_inits,
                expr_wrap_class_ref: Some(class_ref),
                needs_expr_wrap: true,
                ..t.state
            },
            ..t
        },
        class_ref,
        reference_id,
    )
}

/// The transform when it has left a class expression: the statements for it go to its wrapper. The
/// references that are made have the numbers from `base` on.
pub open spec fn expression_left(
    t: TransformView,
    class_ref: BoundIdentifierView,
    base: nat,
) -> TransformView {
    let aside = set_aside(t, class_ref, base);
    let t = body_left(aside, Some(class_ref), base + lhs_entries(t, class_ref).len());
    TransformView {
        state: ClassStateView {
            expr_extra_stmts: t.state.extra_stmts,
            extra_stmts: Seq::empty(),
            ..t.state
        },
        ..t
    }
}

/// The declarations of these variables.
pub open spec fn declarations(vars: Seq<(BoundIdentifierView, Option<ExpressionView>)>) -> Seq<
    StatementView,
> {
    vars.map_values(|v: (BoundIdentifierView, Option<ExpressionView>)| var_of(v.0, v.1))
}

/// The statements of the wrapper of a class expression.
pub open spec fn wrapper_body(
    state: ClassStateView,
    class_ref: BoundIdentifierView,
    reference_id: nat,
) -> Seq<StatementView> {
    (declarations(state.expr_extra_vars) + state.expr_pre_class_inits
        + state.expr_extra_stmts).push(
        StatementView::ReturnStatement(read_of(class_ref, reference_id)),
    )
}

/// A function that takes the class as `class_ref`, applies its decorators and returns it, called on
/// the class.
pub open spec fn wrapped(
    state: ClassStateView,
    class: ClassView,
    reference_id: nat,
) -> ExpressionView {
    let class_ref = state.expr_wrap_class_ref->0;
    call_with(
        ExpressionView::ArrowFunctionExpression(
            FunctionView {
                params: seq![bound(class_ref)],
                body: wrapper_body(state, class_ref, reference_id),
            },
        ),
        ExpressionView::ClassExpression(Box::new(class)),
    )
}

/// Whether an expression is the one that is wrapped next.
pub open spec fn wraps(t: TransformView, expr: ExpressionView) -> bool {
    t.state.needs_expr_wrap && expr is ClassExpression
}

/// The transform when it has wrapped a class expression.
pub open spec fn after_wrap(t: TransformView) -> TransformView {
    TransformView {
        state: ClassStateView {
            needs_expr_wrap: false,
            expr_wrap_class_ref: None,
            expr_extra_vars: Seq::empty(),
            expr_pre_class_inits: Seq::empty(),
            expr_extra_stmts: Seq::empty(),
            ..t.state
        },
        ..t
    }
}

/// Whether a statement is one that is transformed: a declaration of a class with decorators.
pub open spec fn replaces(stmt: StatementView) -> bool {
    match stmt {
        StatementView::ClassDeclaration(class) => is_decorated(*class),
        _ => false,
    }
}

/// The variable that a class declaration becomes: one of the same name, or a unique one where the
/// class has none.
pub open spec fn class_request(class: ClassView) -> Request {
    match class.name {
        Some(name) => Request::Binding(name),
        None => Request::Uid("_Class"@),
    }
}

/// What is asked of the context for a class declaration.
pub open spec fn declaration_requests(
    t: TransformView,
    class: ClassView,
    supply: Supply,
) -> Seq<Request> {
    class_transformed(t, class, supply).requests.push(class_request(class))
}

/// The transform before the body of a class declaration is processed.
pub open spec fn declaration_entered(
    t: TransformView,
    class: ClassView,
    supply: Supply,
) -> TransformView {
    let p = class_transformed(t, class, supply);
    with_class_lhs(p.transform, supply.fresh.last(), supply.base + p.entries.len())
}

/// The references that are made before the body of a class declaration is processed.
pub open spec fn entering_entries(
    t: TransformView,
    class: ClassView,
    supply: Supply,
) -> Seq<Entry> {
    let p = class_transformed(t, class, supply);
    p.entries + lhs_entries(p.transform, supply.fresh.last())
}

/// The references that are made when a class declaration is replaced, but for the last: the one by
/// which the variable takes the class.
pub open spec fn replacing_entries(
    t: TransformView,
    class: ClassView,
    supply: Supply,
) -> Seq<Entry> {
    entering_entries(t, class, supply) + processed_entries(
        declaration_entered(t, class, supply).state,
        Some(supply.fresh.last()),
    )
}

/// The class expression that a class declaration becomes.
pub open spec fn declared_class(
    t: TransformView,
    class: ClassView,
    supply: Supply,
    scope_id: usize,
) -> ClassView {
    ClassView {
        class_type: ClassType::ClassExpression,
        ..class_processed(
            declaration_entered(t, class, supply),
            class_stripped(class, supply),
            scope_id,
            supply.base + entering_entries(t, class, supply).len(),
        )
    }
}

/// The transform when it has processed the body of a class declaration.
pub open spec fn declaration_left(
    t: TransformView,
    class: ClassView,
    supply: Supply,
) -> TransformView {
    body_left(
        declaration_entered(t, class, supply),
        Some(supply.fresh.last()),
        supply.base + entering_entries(t, class, supply).len(),
    )
}

/// The transform when it has put out everything that is pending.
pub open spec fn put_out(t: TransformView) -> TransformView {
    TransformView {
        extra_vars: Seq::empty(),
        pre_class_inits: Seq::empty(),
        state: ClassStateView { extra_stmts: Seq::empty(), ..t.state },
        ..t
    }
}

/// What a transformed class declaration asks for around it.
pub struct Insertions {
    /// The variable that holds the class. It is to be declared at the top of the enclosing block.
    pub binding: BoundIdentifier,
    /// The statements that are to stand before the class.
    pub before: Vec<Statement>,
    /// The statements that are to follow the class.
    pub after: Vec<Statement>,
}

#[verifier::ext_equal]
pub struct InsertionsView {
    pub binding: BoundIdentifierView,
    pub before: Seq<StatementView>,
    pub after: Seq<StatementView>,
}

impl View for Insertions {
    type V = InsertionsView;

    open spec fn view(&self) -> InsertionsView {
        InsertionsView {
            binding: self.binding@,
            before: statements_view(self.before@),
            after: statements_view(self.after@),
        }
    }
}

pub open spec fn insertions_view(r: Option<Insertions>) -> Option<InsertionsView> {
    match r {
        Some(r) => Some(r@),
        None => None,
    }
}

/// What surrounds a class declaration when the transform is in state `t`.
pub open spec fn insertions(t: TransformView, binding: BoundIdentifierView) -> InsertionsView {
    InsertionsView {
        binding,
        before: declarations(t.extra_vars) + t.pre_class_inits,
        after: t.state.extra_stmts,
    }
}

/// The program with everything that is pending put into it.
pub open spec fn program_left(t: TransformView, program: ProgramView) -> ProgramView {
    ProgramView {
        body: declarations(t.extra_vars) + t.pre_class_inits + program.body + t.state.extra_stmts,
    }
}

/// Whether entering a class took the transform, the class and the context from the first state to
/// the second.
pub open spec fn class_entry(
    t: TransformView,
    class: ClassView,
    ctx: TraverseCtx<'_, ()>,
    new_t: TransformView,
    new_class: ClassView,
    new_ctx: TraverseCtx<'_, ()>,
) -> bool {
    &&& scopes(new_ctx) == scopes(ctx)
    &&& if enters(class) {
        let supply = supplied(ctx, new_ctx);
        let p = class_transformed(t, class, supply);
        &&& new_t == p.transform
        &&& new_class == class_stripped(class, supply)
        &&& issued(ctx, new_ctx, p.requests, p.entries)
    } else {
        &&& new_t == t
        &&& new_class == class
        &&& issued(ctx, new_ctx, Seq::empty(), Seq::empty())
    }
}

/// Whether the context has room for what entering a class needs.
pub open spec fn can_enter(class: ClassView, ctx: TraverseCtx<'_, ()>) -> bool {
    room(
        ctx,
        symbols_needed(class.body.len() as int),
        references_needed(class.body.len() as int),
    )
}

/// How many variables are made when a class is left.
pub open spec fn exit_symbols(class: ClassView) -> int {
    match class.class_type {
        ClassType::ClassExpression => 1,
        ClassType::ClassDeclaration => 0,
    }
}

/// Whether the context has room for what leaving a class needs: for a class expression a variable,
/// and one reference more than for any other class.
pub open spec fn can_exit(t: TransformView, class: ClassView, ctx: TraverseCtx<'_, ()>) -> bool {
    let refs = PROCESS_REFERENCES + exit_symbols(class);
    &&& room(ctx, exit_symbols(class), refs)
    &&& can_apply(t.state, None, ctx, refs)
    &&& scope_room(ctx)
}

/// Whether leaving a class took the transform, the class and the context from the first state to
/// the second.
pub open spec fn class_exit(
    t: TransformView,
    class: ClassView,
    ctx: TraverseCtx<'_, ()>,
    new_t: TransformView,
    new_class: ClassView,
    new_ctx: TraverseCtx<'_, ()>,
) -> bool {
    let scope_id = scopes(ctx).len() as usize;
    let base = references(ctx).len();
    if !awaits_exit(t) {
        &&& new_t == t
        &&& new_class == class
        &&& issued(ctx, new_ctx, Seq::empty(), Seq::empty())
        &&& scopes(new_ctx) == scopes(ctx)
    } else {
        match class.class_type {
            ClassType::ClassExpression => {
                let class_ref = handed_out(ctx, new_ctx)[0];
                let aside = set_aside(t, class_ref, base);
                let lhs = lhs_entries(t, class_ref);
                &&& new_t == expression_left(t, class_ref, base)
                &&& new_class == class_processed(aside, class, scope_id, base + lhs.len())
                &&& issued(
                    ctx,
                    new_ctx,
                    seq![Request::Uid("_class"@)],
                    lhs + processed_entries(aside.state, Some(class_ref)),
                )
                &&& scopes(new_ctx) == scopes_after(ctx, makes_scope(aside, class))
            },
            ClassType::ClassDeclaration => {
                &&& new_t == body_left(t, None, base)
                &&& new_class == class_processed(t, class, scope_id, base)
                &&& issued(ctx, new_ctx, Seq::empty(), processed_entries(t.state, None))
                &&& scopes(new_ctx) == scopes_after(ctx, makes_scope(t, class))
            },
        }
    }
}

/// Whether the context has room for what wrapping a class expression needs.
pub open spec fn can_wrap(t: TransformView, ctx: TraverseCtx<'_, ()>) -> bool {
    room(ctx, 0, 1) && can_refer_to(ctx, t.state.expr_wrap_class_ref, 1)
}

/// Whether leaving an expression took the transform, the expression and the context from the first
/// state to the second.
pub open spec fn expression_exit(
    t: TransformView,
    expr: ExpressionView,
    ctx: TraverseCtx<'_, ()>,
    new_t: TransformView,
    new_expr: ExpressionView,
    new_ctx: TraverseCtx<'_, ()>,
) -> bool {
    &&& scopes(new_ctx) == scopes(ctx)
    &&& if wraps(t, expr) {
        &&& new_t == after_wrap(t)
        &&& new_expr == wrapped(t.state, *expr->ClassExpression_0, references(ctx).len())
        &&& issued(
            ctx,
            new_ctx,
            Seq::empty(),
            seq![read_entry(t.state.expr_wrap_class_ref->0)],
        )
    } else {
        &&& new_t == t
        &&& new_expr == expr
        &&& issued(ctx, new_ctx, Seq::empty(), Seq::empty())
    }
}

/// Whether the name of a class, where it has one, is no longer than names can be.
pub open spec fn name_fits(class: ClassView) -> bool {
    match class.name {
        Some(name) => encode_utf8(name).len() <= u32::MAX,
        None => true,
    }
}

/// How many references are made at most when the declaration of a class with this many members is
/// replaced.
pub open spec fn replace_references(members: int) -> int {
    references_needed(members) + PROCESS_REFERENCES + 2
}

/// Whether the context has room for what a class declaration needs, and its name fits.
pub open spec fn can_replace(t: TransformView, class: ClassView, ctx: TraverseCtx<'_, ()>) -> bool {
    let refs = replace_references(class.body.len() as int);
    &&& room(ctx, symbols_needed(class.body.len() as int) + 1, refs)
    &&& can_apply(t.state, None, ctx, refs)
    &&& scope_room(ctx)
    &&& name_fits(class)
}

/// Whether leaving a statement took the transform, the statement and the context from the first
/// state to the second, with this result.
pub open spec fn statement_exit(
    t: TransformView,
    stmt: StatementView,
    ctx: TraverseCtx<'_, ()>,
    new_t: TransformView,
    new_stmt: StatementView,
    new_ctx: TraverseCtx<'_, ()>,
    result: Option<InsertionsView>,
) -> bool {
    if replaces(stmt) {
        let class = *stmt->ClassDeclaration_0;
        let supply = supplied(ctx, new_ctx);
        let binding = supply.fresh.last();
        let done = declaration_left(t, class, supply);
        let entries = replacing_entries(t, class, supply);
        let new_class = declared_class(t, class, supply, scopes(ctx).len() as usize);
        &&& new_t == put_out(done)
        &&& new_stmt == statement_of(
            assign_of(
                write_of(binding, supply.base + entries.len()),
                ExpressionView::ClassExpression(Box::new(new_class)),
            ),
        )
        &&& result == Some(insertions(done, binding))
        &&& issued(
            ctx,
            new_ctx,
            declaration_requests(t, class, supply),
            entries.push(write_entry(binding)),
        )
        &&& scopes(new_ctx) == scopes_after(
            ctx,
            makes_scope(declaration_entered(t, class, supply), class_stripped(class, supply)),
        )
    } else {
        &&& new_t == t
        &&& new_stmt == stmt
        &&& result is None
        &&& issued(ctx, new_ctx, Seq::empty(), Seq::empty())
        &&& scopes(new_ctx) == scopes(ctx)
    }
}

/// Whether a variable is one that was there before, or one of the first `n` of the supply.
spec fn is_of(
    binding: Option<BoundIdentifierView>,
    before: Option<BoundIdentifierView>,
    supply: Supply,
    n: nat,
) -> bool {
    ||| binding == before
    ||| exists|i: int| 0 <= i < n && binding == Some(#[trigger] supply.fresh[i])
}

/// The transform has its variables from before or from the supply.
proof fn lemma_visited_all_bindings(
    t: TransformView,
    p: Progress,
    members: Seq<ClassElementView>,
    supply: Supply,
)
    requires
        is_of(p.transform.state.init_proto, t.state.init_proto, supply, p.requests.len()),
        is_of(p.transform.state.init_static, t.state.init_static, supply, p.requests.len()),
        is_of(p.transform.state.super_class, t.state.super_class, supply, p.requests.len()),
    ensures
        ({
            let q = visited_all(p, members, supply);
            let n = q.requests.len();
            &&& is_of(q.transform.state.init_proto, t.state.init_proto, supply, n)
            &&& is_of(q.transform.state.init_static, t.state.init_static, supply, n)
            &&& is_of(q.transform.state.super_class, t.state.super_class, supply, n)
        }),
    decreases members.len(),
{
    if members.len() > 0 {
        lemma_visited_all_bindings(t, p, members.drop_last(), supply);
        let q = visited_all(p, members.drop_last(), supply);
        let r = visited(q, members.last(), supply);
        if r.requests.len() == q.requests.len() + 2 {
            let new = supply.fresh[q.requests.len() as int + 1];
            assert(r.transform.state.init_proto == q.transform.state.init_proto
                || r.transform.state.init_proto == Some(new));
            assert(r.transform.state.init_static == q.transform.state.init_static
                || r.transform.state.init_static == Some(new));
        }
    }
}

proof fn lemma_is_of_can_refer(
    a: TraverseCtx<'_, ()>,
    b: TraverseCtx<'_, ()>,
    requests: Seq<Request>,
    entries: Seq<Entry>,
    binding: Option<BoundIdentifierView>,
    before: Option<BoundIdentifierView>,
    refs: int,
)
    requires
        issued(a, b, requests, entries),
        is_of(binding, before, supplied(a, b), requests.len()),
        can_refer_to(a, before, refs),
        refs <= MAX_RESOLVED,
    ensures
        can_refer_to(b, binding, refs - entries.len()),
{
    if binding == before {
        lemma_can_refer(a, b, requests, entries, before, refs);
    } else {
        let i = choose|i: int|
            0 <= i < requests.len() && binding == Some(#[trigger] supplied(a, b).fresh[i]);
        lemma_fresh_can_refer(a, b, requests, entries, i);
    }
}

/// When a class has been taken over, there is room left for references to what was taken over.
proof fn lemma_can_apply_transformed(
    t: TransformView,
    class: ClassView,
    a: TraverseCtx<'_, ()>,
    b: TraverseCtx<'_, ()>,
    refs: int,
)
    requires
        can_apply(t.state, None, a, refs),
        refs <= MAX_RESOLVED,
        symbols(b).len() <= u32::MAX,
        scopes(b) == scopes(a),
        ({
            let p = class_transformed(t, class, supplied(a, b));
            issued(a, b, p.requests, p.entries)
        }),
    ensures
        ({
            let p = class_transformed(t, class, supplied(a, b));
            can_apply(p.transform.state, None, b, refs - p.entries.len())
        }),
{
    let supply = supplied(a, b);
    let start = class_entered(t, class, supply);
    let p = class_transformed(t, class, supply);
    if class.super_class is Some {
        assert(start.transform.state.super_class == Some(supply.fresh[0]));
    }
    lemma_visited_all_bindings(t, start, class.body, supply);
    let (r, e) = (p.requests, p.entries);
    let state = p.transform.state;
    lemma_is_of_can_refer(a, b, r, e, state.init_proto, t.state.init_proto, refs);
    lemma_is_of_can_refer(a, b, r, e, state.init_static, t.state.init_static, refs);
    lemma_is_of_can_refer(a, b, r, e, state.super_class, t.state.super_class, refs);
}

proof fn lemma_visited_wf(p: Progress, member: ClassElementView, supply: Supply)
    requires
        wf(p.transform),
    ensures
        wf(visited(p, member, supply).transform),
{
}

proof fn lemma_visited_all_wf(
    p: Progress,
    members: Seq<ClassElementView>,
    supply: Supply,
)
    requires
        wf(p.transform),
    ensures
        wf(visited_all(p, members, supply).transform),
    decreases members.len(),
{
    if members.len() > 0 {
        lemma_visited_all_wf(p, members.drop_last(), supply);
        lemma_visited_wf(visited_all(p, members.drop_last(), supply), members.last(), supply);
    }
}

/// What holds of the transform still holds when it has taken over the decorators of a class.
pub proof fn lemma_class_transformed_wf(
    t: TransformView,
    class: ClassView,
    supply: Supply,
)
    requires
        wf(t),
    ensures
        wf(class_transformed(t, class, supply).transform),
{
    lemma_visited_all_wf(class_entered(t, class, supply), class.body, supply);
}

/// What holds of the transform still holds when it has put out the decorators of a class.
proof fn lemma_body_left_wf(
    t: TransformView,
    binding: BoundIdentifierView,
    reference_id: nat,
    class_ref: Option<BoundIdentifierView>,
    base: nat,
)
    requires
        wf(t),
    ensures
        wf(body_left(with_class_lhs(t, binding, reference_id), class_ref, base)),
{
}

/// Appends the declarations of these variables to `statements`.
fn declare(statements: &mut Vec<Statement>, vars: Vec<(BoundIdentifier, Option<Expression>)>)
    ensures
        statements_view(final(statements)@) == statements_view(old(statements)@) + declarations(
            vars_view(vars@),
        ),
{
    let ghost before = statements_view(statements@);
    let ghost all = vars_view(vars@);
    assert(before + declarations(all.take(0)) =~= before);
    for var in it: vars.into_iter()
        invariant
            it.seq() == vars@,
            all == vars_view(vars@),
            statements_view(statements@) == before + declarations(all.take(it.index())),
    {
        let ghost i = it.index();
        let ghost list = statements@;
        let (binding, init) = var;
        assert(all[i] == (binding@, option_expression_view(init)));
        let statement = var_declaration(&binding, init);
        statements.push(statement);
        assert(statements_view(statements@) =~= statements_view(list).push(statement@));
        assert(declarations(all.take(i + 1)) =~= declarations(all.take(i)).push(statement@));
        assert(statements_view(statements@) =~= before + declarations(all.take(i + 1)));
    }
    assert(all.take(all.len() as int) =~= all);
}

/// Appends `more` to `statements`.
fn append(statements: &mut Vec<Statement>, more: &mut Vec<Statement>)
    ensures
        statements_view(final(statements)@) == statements_view(old(statements)@) + statements_view(
            old(more)@,
        ),
        final(more)@ == Seq::<Statement>::empty(),
{
    let ghost a = statements@;
    let ghost b = more@;
    statements.append(more);
    assert(statements_view(statements@) =~= statements_view(a) + statements_view(b));
}

impl Tc39Decorator {
    /// Takes over the decorators of a class expression.
    pub fn enter_class(&mut self, class: &mut Class, ctx: &mut TraverseCtx<'_, ()>)
        requires
            wf(old(self)@),
            enters(old(class)@) ==> can_enter(old(class)@, *old(ctx)),
        ensures
            wf(final(self)@),
            class_entry(
                old(self)@,
                old(class)@,
                *old(ctx),
                final(self)@,
                final(class)@,
                *final(ctx),
            ),
    {
        proof {
            lemma_issued_nothing(*ctx);
        }
        if !Self::has_any_decorators(class) {
            return;
        }
        if class.class_type != ClassType::ClassDeclaration {
            self.transform_class(class, ctx);
            proof {
                lemma_class_transformed_wf(old(self)@, old(class)@, supplied(*old(ctx), *ctx));
            }
        }
    }

    /// Has the variable take the decorated class, if the class itself has decorators.
    fn push_class_lhs(&mut self, binding: &BoundIdentifier, ctx: &mut TraverseCtx<'_, ()>)
        requires
            room(*old(ctx), 0, 1),
            can_refer(*old(ctx), binding@, 1),
        ensures
            final(self)@ == with_class_lhs(old(self)@, binding@, references(*old(ctx)).len()),
            issued(*old(ctx), *final(ctx), Seq::empty(), lhs_entries(old(self)@, binding@)),
            scopes(*final(ctx)) == scopes(*old(ctx)),
    {
        let ghost t0 = self@;
        proof {
            lemma_issued_nothing(*ctx);
        }
        assert(self.state.class_decorators@.len() == t0.state.class_decorators.len());
        if !self.state.class_decorators.is_empty() {
            self.state.class_lhs.push(binding.write(ctx));
        }
        assert(self@ =~= with_class_lhs(t0, binding@, references(*old(ctx)).len()));
    }

    /// Puts out what was taken over, for the class that is left. What a class expression needs is
    /// set aside for its wrapper; for any other class it stays pending.
    #[verifier::spinoff_prover]
    #[verifier::rlimit(50)]
    pub fn exit_class(&mut self, class: &mut Class, ctx: &mut TraverseCtx<'_, ()>)
        requires
            wf(old(self)@),
            awaits_exit(old(self)@) ==> can_exit(old(self)@, old(class)@, *old(ctx)),
        ensures
            wf(final(self)@),
            class_exit(
                old(self)@,
                old(class)@,
                *old(ctx),
                final(self)@,
                final(class)@,
                *final(ctx),
            ),
    {
        let ghost t0 = self@;
        let ghost base = references(*ctx).len();
        proof {
            lemma_issued_nothing(*ctx);
        }
        if self.state.init_proto.is_none() && self.state.init_static.is_none()
            && self.state.class_decorators.is_empty() {
            return;
        }
        if class.class_type == ClassType::ClassExpression {
            let mut extra_vars: Vec<(BoundIdentifier, Option<Expression>)> = Vec::new();
            std::mem::swap(&mut extra_vars, &mut self.extra_vars);
            self.state.expr_extra_vars = extra_vars;
            let mut inits: Vec<Statement> = Vec::new();
            std::mem::swap(&mut inits, &mut self.pre_class_inits);
            self.state.expr_pre_class_inits = inits;
            proof {
                reveal_strlit("_class");
            }
            let class_ref = create_uid(ctx, "_class");
            let ghost asked = seq![Request::Uid("_class"@)];
            let ghost ctx1 = *ctx;
            proof {
                lemma_can_apply_with(
                    t0.state,
                    Some(class_ref@),
                    *old(ctx),
                    ctx1,
                    asked,
                    Seq::empty(),
                    8,
                );
            }
            self.state.expr_wrap_class_ref = Some(class_ref.duplicate());
            self.state.needs_expr_wrap = true;
            let ghost t1 = self@;
            let ghost lhs = lhs_entries(t0, class_ref@);
            self.push_class_lhs(&class_ref, ctx);
            let ghost ctx2 = *ctx;
            let ghost aside = self@;
            proof {
                assert(t1 =~= TransformView {
                    extra_vars: Seq::empty(),
                    pre_class_inits: Seq::empty(),
                    state: t1.state,
                    ..t0
                });
                assert(aside =~= set_aside(t0, class_ref@, base));
                lemma_issued_more(*old(ctx), ctx1, ctx2, asked, Seq::empty(), lhs);
                assert(Seq::<Entry>::empty() + lhs =~= lhs);
                lemma_can_apply(aside.state, Some(class_ref@), ctx1, ctx2, lhs, 8);
            }
            self.process_class_body(class, Some(&class_ref), ctx);
            let mut stmts: Vec<Statement> = Vec::new();
            std::mem::swap(&mut stmts, &mut self.state.extra_stmts);
            self.state.expr_extra_stmts = stmts;
            proof {
                assert(self@ =~= expression_left(t0, class_ref@, base));
                lemma_issued_more(
                    *old(ctx),
                    ctx2,
                    *ctx,
                    asked,
                    lhs,
                    processed_entries(aside.state, Some(class_ref@)),
                );
                assert(handed_out(*old(ctx), *ctx)[0] == class_ref@);
            }
        } else {
            self.process_class_body(class, None, ctx);
        }
    }

    /// Wraps the class expression that was left last.
    #[verifier::spinoff_prover]
    #[verifier::rlimit(30)]
    pub fn exit_expression(&mut self, expr: &mut Expression, ctx: &mut TraverseCtx<'_, ()>)
        requires
            wf(old(self)@),
            wraps(old(self)@, old(expr)@) ==> can_wrap(old(self)@, *old(ctx)),
        ensures
            wf(final(self)@),
            expression_exit(
                old(self)@,
                old(expr)@,
                *old(ctx),
                final(self)@,
                final(expr)@,
                *final(ctx),
            ),
    {
        let ghost t0 = self@;
        let ghost base = references(*ctx).len();
        proof {
            lemma_issued_nothing(*ctx);
        }
        if !self.state.needs_expr_wrap {
            return;
        }
        if !matches!(&*expr, Expression::ClassExpression(_)) {
            return;
        }
        self.state.needs_expr_wrap = false;
        let class_ref = self.state.expr_wrap_class_ref.take().unwrap();
        let mut class_expr = Expression::NullLiteral;
        std::mem::swap(&mut class_expr, expr);

        let mut body: Vec<Statement> = Vec::new();
        let mut vars: Vec<(BoundIdentifier, Option<Expression>)> = Vec::new();
        std::mem::swap(&mut vars, &mut self.state.expr_extra_vars);
        declare(&mut body, vars);
        append(&mut body, &mut self.state.expr_pre_class_inits);
        append(&mut body, &mut self.state.expr_extra_stmts);
        let ghost before = body@;
        let result = Statement::ReturnStatement(class_ref.read(ctx));
        body.push(result);
        assert(statements_view(body@) =~= statements_view(before).push(result@));
        assert(statements_view(body@) =~= wrapper_body(t0.state, class_ref@, base));
        let mut params: Vec<Identifier> = Vec::new();
        params.push(class_ref.identifier());
        assert(identifiers_view(params@) =~= seq![bound(class_ref@)]);
        let arrow = Function { params, body };
        assert(function_view(arrow).body == wrapper_body(t0.state, class_ref@, base));
        *expr = call_one(Expression::ArrowFunctionExpression(arrow), class_expr);
        assert(self@ =~= after_wrap(t0));
    }

    /// Takes over the decorators of a class declaration and puts them out for the variable that the
    /// class goes to, which is returned.
    #[verifier::spinoff_prover]
    #[verifier::rlimit(60)]
    fn replace_declaration(&mut self, class: &mut Class, ctx: &mut TraverseCtx<'_, ()>) -> (binding:
        BoundIdentifier)
        requires
            can_replace(old(self)@, old(class)@, *old(ctx)),
        ensures
            ({
                let supply = supplied(*old(ctx), *final(ctx));
                let entered = declaration_entered(old(self)@, old(class)@, supply);
                &&& binding@ == supply.fresh.last()
                &&& final(self)@ == declaration_left(old(self)@, old(class)@, supply)
                &&& final(class)@ == declared_class(
                    old(self)@,
                    old(class)@,
                    supply,
                    scopes(*old(ctx)).len() as usize,
                )
                &&& issued(
                    *old(ctx),
                    *final(ctx),
                    declaration_requests(old(self)@, old(class)@, supply),
                    replacing_entries(old(self)@, old(class)@, supply),
                )
                &&& scopes(*final(ctx)) == scopes_after(
                    *old(ctx),
                    makes_scope(entered, class_stripped(old(class)@, supply)),
                )
            }),
            room(*final(ctx), 0, 1),
            can_refer(*final(ctx), binding@, 1),
    {
        let ghost t0 = self@;
        let ghost c0 = class@;
        let ghost refs = replace_references(c0.body.len() as int);
        self.transform_class(class, ctx);
        let ghost ctx1 = *ctx;
        let ghost first = supplied(*old(ctx), ctx1);
        let ghost p = class_transformed(t0, c0, first);
        proof {
            reveal_strlit("_Class");
            lemma_class_needs(t0, c0, first);
            lemma_can_apply_transformed(t0, c0, *old(ctx), ctx1, refs);
        }
        let binding = match &class.name {
            Some(name) => create_var(ctx, name.as_str()),
            None => create_uid(ctx, "_Class"),
        };
        let ghost ctx2 = *ctx;
        let ghost supply = supplied(*old(ctx), ctx2);
        let ghost more = seq![class_request(c0)];
        let ghost asked = p.requests.push(class_request(c0));
        proof {
            lemma_issued_append(
                *old(ctx),
                ctx1,
                ctx2,
                p.requests,
                more,
                p.entries,
                Seq::empty(),
            );
            assert(p.entries + Seq::<Entry>::empty() =~= p.entries);
            assert(p.requests + more =~= asked);
            lemma_class_transformed_prefix(t0, c0, first, seq![binding@]);
            assert(supply == with_more(first, seq![binding@]));
            assert(supply.fresh.last() == binding@);
            lemma_can_apply_with(
                p.transform.state,
                Some(binding@),
                ctx1,
                ctx2,
                more,
                Seq::empty(),
                refs - p.entries.len(),
            );
        }
        let ghost lhs = lhs_entries(p.transform, binding@);
        self.push_class_lhs(&binding, ctx);
        let ghost ctx3 = *ctx;
        let ghost entered = self@;
        let ghost e3 = processed_entries(entered.state, Some(binding@));
        proof {
            assert(entered == declaration_entered(t0, c0, supply));
            lemma_issued_more(*old(ctx), ctx2, ctx3, asked, p.entries, lhs);
            lemma_can_apply(
                entered.state,
                Some(binding@),
                ctx2,
                ctx3,
                lhs,
                refs - p.entries.len(),
            );
        }
        self.process_class_body(class, Some(&binding), ctx);
        class.class_type = ClassType::ClassExpression;
        proof {
            lemma_issued_more(*old(ctx), ctx3, *ctx, asked, p.entries + lhs, e3);
            assert(e3.len() <= 7);
            lemma_can_apply(
                entered.state,
                Some(binding@),
                ctx3,
                *ctx,
                e3,
                refs - p.entries.len() - lhs.len(),
            );
            assert(supplied(*old(ctx), *ctx) == supply);
        }
        binding
    }

    /// Takes out what has to stand around a class declaration.
    fn take_insertions(&mut self, binding: BoundIdentifier) -> (r: Insertions)
        ensures
            final(self)@ == put_out(old(self)@),
            r@ == insertions(old(self)@, binding@),
    {
        let ghost t0 = self@;
        let mut before: Vec<Statement> = Vec::new();
        let mut vars: Vec<(BoundIdentifier, Option<Expression>)> = Vec::new();
        std::mem::swap(&mut vars, &mut self.extra_vars);
        declare(&mut before, vars);
        append(&mut before, &mut self.pre_class_inits);
        let mut after: Vec<Statement> = Vec::new();
        std::mem::swap(&mut after, &mut self.state.extra_stmts);
        assert(self@ =~= put_out(t0));
        let r = Insertions { binding, before, after };
        assert(r@ =~= insertions(t0, binding@));
        r
    }

    /// Turns the declaration of a class with decorators into an assignment, and says what has to
    /// stand around it.
    #[verifier::spinoff_prover]
    #[verifier::rlimit(50)]
    pub fn exit_statement(&mut self, stmt: &mut Statement, ctx: &mut TraverseCtx<'_, ()>) -> (r:
        Option<Insertions>)
        requires
            wf(old(self)@),
            replaces(old(stmt)@) ==> can_replace(
                old(self)@,
                *old(stmt)@->ClassDeclaration_0,
                *old(ctx),
            ),
        ensures
            wf(final(self)@),
            statement_exit(
                old(self)@,
                old(stmt)@,
                *old(ctx),
                final(self)@,
                final(stmt)@,
                *final(ctx),
                insertions_view(r),
            ),
    {
        let ghost t0 = self@;
        proof {
            lemma_issued_nothing(*ctx);
        }
        if let Statement::ClassDeclaration(class) = &*stmt {
            if !Self::has_any_decorators(class) {
                return None;
            }
        }
        let mut old_stmt = Statement::ReturnStatement(Expression::NullLiteral);
        std::mem::swap(&mut old_stmt, stmt);
        match old_stmt {
            Statement::ClassDeclaration(class_box) => {
                let mut class: Class = *class_box;
                let ghost c0 = class@;
                let binding = self.replace_declaration(&mut class, ctx);
                let ghost ctx1 = *ctx;
                let ghost supply = supplied(*old(ctx), ctx1);
                let ghost entries = replacing_entries(t0, c0, supply);
                let target = binding.write(ctx);
                proof {
                    lemma_class_transformed_wf(t0, c0, supply);
                    let p = class_transformed(t0, c0, supply);
                    lemma_body_left_wf(
                        p.transform,
                        binding@,
                        supply.base + p.entries.len(),
                        Some(binding@),
                        supply.base + entering_entries(t0, c0, supply).len(),
                    );
                    lemma_issued_more(
                        *old(ctx),
                        ctx1,
                        *ctx,
                        declaration_requests(t0, c0, supply),
                        entries,
                        seq![write_entry(binding@)],
                    );
                    assert(entries + seq![write_entry(binding@)] =~= entries.push(
                        write_entry(binding@),
                    ));
                    assert(supplied(*old(ctx), *ctx) == supply);
                }
                *stmt = expression_statement(
                    assignment(target, Expression::ClassExpression(Box::new(class))),
                );
                Some(self.take_insertions(binding))
            },
            other => {
                *stmt = other;
                None
            },
        }
    }

    /// Puts everything that is pending into the program. By then the decorators of every class have
    /// been applied.
    pub fn exit_program(&mut self, program: &mut Program)
        requires
            wf(old(self)@),
            old(self)@.state.class_decorators.len() == 0,
        ensures
            wf(final(self)@),
            final(self)@ == put_out(old(self)@),
            final(program)@ == program_left(old(self)@, old(program)@),
    {
        self.leave_program(program);
    }

    /// [`Self::exit_program`], whether or not decorators of a class still wait to be applied.
    pub fn leave_program(&mut self, program: &mut Program)
        requires
            wf(old(self)@),
        ensures
            wf(final(self)@),
            final(self)@ == put_out(old(self)@),
            final(program)@ == program_left(old(self)@, old(program)@),
    {
        let ghost t0 = self@;
        let ghost p0 = program@;
        if self.extra_vars.is_empty() && self.pre_class_inits.is_empty()
            && self.state.extra_stmts.is_empty() {
            assert(self@ =~= put_out(t0));
            assert(declarations(t0.extra_vars) =~= Seq::empty());
            assert(program@.body =~= program_left(t0, p0).body);
            return;
        }
        let mut body: Vec<Statement> = Vec::new();
        let mut vars: Vec<(BoundIdentifier, Option<Expression>)> = Vec::new();
        std::mem::swap(&mut vars, &mut self.extra_vars);
        declare(&mut body, vars);
        append(&mut body, &mut self.pre_class_inits);
        append(&mut body, &mut program.body);
        append(&mut body, &mut self.state.extra_stmts);
        program.body = body;
        assert(self@ =~= put_out(t0));
        assert(program@.body =~= program_left(t0, p0).body);
    }

    /// Whether decorators of a class wait to be applied.
    pub fn has_class_decorators(&self) -> (r: bool)
        ensures
            r == (self@.state.class_decorators.len() > 0),
    {
        assert(self@.state.class_decorators.len() == self.state.class_decorators@.len());
        !self.state.class_decorators.is_empty()
    }

    /// Asks whether there is room for variables, and for references to what is pending.
    fn may_apply(&self, ctx: &mut TraverseCtx<'_, ()>, n: usize, refs: usize) -> (r: bool)
        ensures
            r == (room(*old(ctx), n as int, refs as int) && can_apply(
                self@.state,
                None,
                *old(ctx),
                refs as int,
            )),
            *final(ctx) == *old(ctx),
    {
        has_room(ctx, n, refs) && may_refer_to(ctx, &self.state.init_proto, refs) && may_refer_to(
            ctx,
            &self.state.init_static,
            refs,
        ) && may_refer_to(ctx, &self.state.super_class, refs)
    }

    /// [`Self::enter_class`] where the context has room for it. Returns whether it has.
    pub fn try_enter_class(&mut self, class: &mut Class, ctx: &mut TraverseCtx<'_, ()>) -> (r: bool)
        requires
            wf(old(self)@),
        ensures
            wf(final(self)@),
            r == (!enters(old(class)@) || can_enter(old(class)@, *old(ctx))),
            r ==> class_entry(
                old(self)@,
                old(class)@,
                *old(ctx),
                final(self)@,
                final(class)@,
                *final(ctx),
            ),
            !r ==> final(self)@ == old(self)@ && final(class)@ == old(class)@ && *final(ctx)
                == *old(ctx),
    {
        let enters = Self::has_any_decorators(class) && class.class_type
            != ClassType::ClassDeclaration;
        if enters {
            let members: usize = class.body.len();
            if members > MAX_SYMBOLS {
                return false;
            }
            if !has_room(ctx, 2 * members + 1, members + 2) {
                return false;
            }
        }
        self.enter_class(class, ctx);
        true
    }

    /// [`Self::exit_class`] where the context has room for it. Returns whether it has.
    pub fn try_exit_class(&mut self, class: &mut Class, ctx: &mut TraverseCtx<'_, ()>) -> (r: bool)
        requires
            wf(old(self)@),
        ensures
            wf(final(self)@),
            r == (!awaits_exit(old(self)@) || can_exit(old(self)@, old(class)@, *old(ctx))),
            r ==> class_exit(
                old(self)@,
                old(class)@,
                *old(ctx),
                final(self)@,
                final(class)@,
                *final(ctx),
            ),
            !r ==> final(self)@ == old(self)@ && final(class)@ == old(class)@ && *final(ctx)
                == *old(ctx),
    {
        let awaits = self.state.init_proto.is_some() || self.state.init_static.is_some()
            || !self.state.class_decorators.is_empty();
        let needed: usize = if class.class_type == ClassType::ClassExpression {
            1
        } else {
            0
        };
        if awaits && !(self.may_apply(ctx, needed, PROCESS_REFERENCES + needed) && has_scope_room(
            ctx,
        )) {
            return false;
        }
        self.exit_class(class, ctx);
        true
    }

    /// [`Self::exit_expression`] where the context has room for it. Returns whether it has.
    pub fn try_exit_expression(
        &mut self,
        expr: &mut Expression,
        ctx: &mut TraverseCtx<'_, ()>,
    ) -> (r: bool)
        requires
            wf(old(self)@),
        ensures
            wf(final(self)@),
            r == (!wraps(old(self)@, old(expr)@) || can_wrap(old(self)@, *old(ctx))),
            r ==> expression_exit(
                old(self)@,
                old(expr)@,
                *old(ctx),
                final(self)@,
                final(expr)@,
                *final(ctx),
            ),
            !r ==> final(self)@ == old(self)@ && final(expr)@ == old(expr)@ && *final(ctx)
                == *old(ctx),
    {
        let wraps = self.state.needs_expr_wrap && matches!(&*expr, Expression::ClassExpression(_));
        if wraps && !(has_room(ctx, 0, 1) && may_refer_to(
            ctx,
            &self.state.expr_wrap_class_ref,
            1,
        )) {
            return false;
        }
        self.exit_expression(expr, ctx);
        true
    }

    /// [`Self::exit_statement`] where the context has room for it, and the name of the class fits.
    /// Returns nothing where that is not so.
    pub fn try_exit_statement(&mut self, stmt: &mut Statement, ctx: &mut TraverseCtx<'_, ()>) -> (r:
        Option<Option<Insertions>>)
        requires
            wf(old(self)@),
        ensures
            wf(final(self)@),
            r is Some == (!replaces(old(stmt)@) || can_replace(
                old(self)@,
                *old(stmt)@->ClassDeclaration_0,
                *old(ctx),
            )),
            r is Some ==> statement_exit(
                old(self)@,
                old(stmt)@,
                *old(ctx),
                final(self)@,
                final(stmt)@,
                *final(ctx),
                insertions_view(r->0),
            ),
            r is None ==> final(self)@ == old(self)@ && final(stmt)@ == old(stmt)@ && *final(ctx)
                == *old(ctx),
    {
        if let Statement::ClassDeclaration(class) = &*stmt {
            if Self::has_any_decorators(class) {
                let fits = match &class.name {
                    Some(name) => name.as_str().as_bytes().len() <= u32::MAX as usize,
                    None => true,
                };
                let members: usize = class.body.len();
                if !fits || members > MAX_SYMBOLS {
                    return None;
                }
                let refs: usize = members + 2 + PROCESS_REFERENCES + 2;
                if !(self.may_apply(ctx, 2 * members + 2, refs) && has_scope_room(ctx)) {
                    return None;
                }
            }
        }
        Some(self.exit_statement(stmt, ctx))
    }
}

} // verus!
