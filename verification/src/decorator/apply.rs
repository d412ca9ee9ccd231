//! The call that applies the decorators.
use super::kinds::helper_of;
use super::{
    option_binding_view, options_view, ClassStateView, DecoratorVersion, Tc39Decorator,
    TransformView,
};
use crate::ast::{
    Argument, AssignmentTarget, AssignmentTargetProperty, BoundIdentifier, Expression, Function,
    Identifier, PrivateInExpression, Statement,
};
use crate::builder::{
    assign_of, assignment, bare, bare_expression, bare_identifier, call, call_of, call_one,
    call_with, expression_statement, property, property_of, read_of, read_or_this,
    read_or_this_expression, ref_view, statement_of, write_of,
};
use crate::context::{
    can_refer_to, issued, lemma_can_refer, lemma_issued_more, lemma_issued_nothing, read_entries,
    read_entry, references, room, scopes, symbols, write_entries, Entry, Request,
};
use crate::model::{
    arguments_view, expressions_view, function_view, private_in_view, properties_view,
    statement_view, targets_view, ArgumentView, AssignmentTargetPropertyView, AssignmentTargetView,
    BoundIdentifierView, ExpressionView, FunctionView, PrivateInExpressionView, StatementView,
};
use oxc_traverse::TraverseCtx;
use vstd::prelude::*;

verus! {

/// Whether any decorator waits to be applied.
pub open spec fn is_pending(state: ClassStateView) -> bool {
    ||| state.init_proto_args.len() > 0
    ||| state.init_static_args.len() > 0
    ||| state.class_decorators.len() > 0
}

/// The elements that are there, in order.
pub open spec fn present(s: Seq<Option<ExpressionView>>) -> Seq<ExpressionView>
    decreases s.len(),
{
    if s.len() == 0 {
        Seq::empty()
    } else {
        match s.last() {
            Some(e) => present(s.drop_last()).push(e),
            None => present(s.drop_last()),
        }
    }
}

/// How many variables there are: one or none.
pub open spec fn count(binding: Option<BoundIdentifierView>) -> nat {
    if binding is Some {
        1
    } else {
        0
    }
}

pub open spec fn option_target(
    binding: Option<BoundIdentifierView>,
    reference_id: nat,
) -> Seq<AssignmentTargetView> {
    match binding {
        Some(b) => seq![write_of(b, reference_id)],
        None => Seq::empty(),
    }
}

/// The variables that take what the helper returns for the members, in its order. The references to
/// the functions that run initialisers have the numbers from `base` on.
pub open spec fn element_targets(state: ClassStateView, base: nat) -> Seq<AssignmentTargetView> {
    state.static_non_field_lhs + state.proto_non_field_lhs + state.static_field_lhs
        + state.proto_field_lhs + option_target(state.init_proto, base) + option_target(
        state.init_static,
        base + count(state.init_proto),
    )
}

/// The number of the reference by which the class is handed to the helper.
pub open spec fn class_reference(state: ClassStateView, base: nat) -> nat {
    base + count(state.init_proto) + count(state.init_static)
}

/// The number of the reference by which the superclass is handed to the helper.
pub open spec fn super_reference(
    state: ClassStateView,
    class_ref: Option<BoundIdentifierView>,
    base: nat,
) -> nat {
    class_reference(state, base) + count(class_ref)
}

/// The number of the first reference in the call that runs the static initialisers.
pub open spec fn static_reference(
    state: ClassStateView,
    class_ref: Option<BoundIdentifierView>,
    base: nat,
) -> nat {
    super_reference(state, class_ref, base) + count(state.super_class)
}

/// The references that are made when the pending decorators are put out.
pub open spec fn consumed_entries(
    state: ClassStateView,
    class_ref: Option<BoundIdentifierView>,
) -> Seq<Entry> {
    if !is_pending(state) {
        Seq::empty()
    } else {
        write_entries(state.init_proto) + write_entries(state.init_static) + read_entries(class_ref)
            + read_entries(state.super_class) + if state.init_static is Some {
            read_entries(class_ref) + read_entries(state.init_static)
        } else {
            Seq::empty()
        }
    }
}

/// How many references are made at most when the pending decorators are put out.
pub const APPLY_REFERENCES: usize = 6;

/// Whether the context has room for `refs` references to each of the variables that the pending
/// decorators are put out with.
pub open spec fn can_apply(
    state: ClassStateView,
    class_ref: Option<BoundIdentifierView>,
    ctx: TraverseCtx<'_, ()>,
    refs: int,
) -> bool {
    &&& room(ctx, 0, refs)
    &&& can_refer_to(ctx, state.init_proto, refs)
    &&& can_refer_to(ctx, state.init_static, refs)
    &&& can_refer_to(ctx, state.super_class, refs)
    &&& can_refer_to(ctx, class_ref, refs)
}

/// Each reference that is made leaves room for one less.
pub proof fn lemma_can_apply(
    state: ClassStateView,
    class_ref: Option<BoundIdentifierView>,
    a: TraverseCtx<'_, ()>,
    b: TraverseCtx<'_, ()>,
    entries: Seq<Entry>,
    refs: int,
)
    requires
        can_apply(state, class_ref, a, refs),
        issued(a, b, Seq::empty(), entries),
        scopes(a).len() <= scopes(b).len(),
    ensures
        can_apply(state, class_ref, b, refs - entries.len()),
{
    let none = Seq::<Request>::empty();
    lemma_can_refer(a, b, none, entries, class_ref, refs);
    lemma_can_apply_with(state, class_ref, a, b, none, entries, refs);
}

/// The same where variables were made too, among them the one that holds the class.
pub proof fn lemma_can_apply_with(
    state: ClassStateView,
    class_ref: Option<BoundIdentifierView>,
    a: TraverseCtx<'_, ()>,
    b: TraverseCtx<'_, ()>,
    requests: Seq<Request>,
    entries: Seq<Entry>,
    refs: int,
)
    requires
        can_apply(state, None, a, refs),
        issued(a, b, requests, entries),
        symbols(b).len() <= u32::MAX,
        scopes(a).len() <= scopes(b).len(),
        can_refer_to(b, class_ref, refs - entries.len()),
    ensures
        can_apply(state, class_ref, b, refs - entries.len()),
{
    lemma_can_refer(a, b, requests, entries, state.init_proto, refs);
    lemma_can_refer(a, b, requests, entries, state.init_static, refs);
    lemma_can_refer(a, b, requests, entries, state.super_class, refs);
}

/// The descriptions of the decorated members, the static ones first.
pub open spec fn member_elements(state: ClassStateView) -> Seq<ExpressionView> {
    present(state.init_static_args) + present(state.init_proto_args)
}

/// `(o) => { return #brand in o; }`
pub open spec fn brand_test(brand: Seq<char>) -> ExpressionView {
    ExpressionView::ArrowFunctionExpression(
        FunctionView {
            params: seq![bare("o"@)],
            body: seq![
                StatementView::ReturnStatement(
                    ExpressionView::PrivateInExpression(
                        Box::new(
                            PrivateInExpressionView {
                                left: brand,
                                right: ExpressionView::Identifier(bare("o"@)),
                            },
                        ),
                    ),
                ),
            ],
        },
    )
}

/// Whether the decorators of the class need its `this`, as a number.
pub open spec fn this_flag(state: ClassStateView) -> Seq<ExpressionView> {
    if state.class_decorators_have_this || state.instance_brand is Some || state.super_class is Some {
        seq![
            ExpressionView::NumericLiteral(
                if state.class_decorators_have_this {
                    1
                } else {
                    0
                },
            ),
        ]
    } else {
        Seq::empty()
    }
}

/// The test for instances of the class. Where there is none, its place is kept if the superclass
/// follows.
pub open spec fn brand_argument(state: ClassStateView) -> Seq<ExpressionView> {
    match state.instance_brand {
        Some(brand) => seq![brand_test(brand)],
        None => if state.super_class is Some {
            seq![ExpressionView::Identifier(bare("undefined"@))]
        } else {
            Seq::empty()
        },
    }
}

pub open spec fn super_argument(state: ClassStateView, reference_id: nat) -> Seq<ExpressionView> {
    match state.super_class {
        Some(b) => seq![read_of(b, reference_id)],
        None => Seq::empty(),
    }
}

/// The arguments of the helper: the class, then its decorators and its members, which stand the
/// other way round in the earlier version, then what is known of `this` and the superclass.
pub open spec fn helper_arguments(
    t: TransformView,
    class_ref: Option<BoundIdentifierView>,
    base: nat,
) -> Seq<ExpressionView> {
    let class = read_or_this(class_ref, class_reference(t.state, base));
    let class_array = ExpressionView::ArrayExpression(present(t.state.class_decorators));
    let member_array = ExpressionView::ArrayExpression(member_elements(t.state));
    let super_class = super_argument(t.state, super_reference(t.state, class_ref, base));
    match t.version {
        DecoratorVersion::V202311 => seq![class, class_array, member_array] + this_flag(t.state)
            + brand_argument(t.state) + super_class,
        DecoratorVersion::V202203 => seq![class, member_array, class_array] + super_class,
    }
}

pub open spec fn plain_arguments(s: Seq<ExpressionView>) -> Seq<ArgumentView> {
    s.map_values(|e: ExpressionView| ArgumentView::Expression(e))
}

pub open spec fn helper_call(
    t: TransformView,
    class_ref: Option<BoundIdentifierView>,
    base: nat,
) -> ExpressionView {
    call_of(
        ExpressionView::Helper(helper_of(t.version)),
        plain_arguments(helper_arguments(t, class_ref, base)),
    )
}

/// The property `key` of the result, if there is anything to take from it.
pub open spec fn taken(key: Seq<char>, targets: Seq<AssignmentTargetView>) -> Seq<
    AssignmentTargetPropertyView,
> {
    if targets.len() > 0 {
        seq![property_of(key, AssignmentTargetView::Array(targets))]
    } else {
        Seq::empty()
    }
}

/// The statement that calls the helper and takes its result apart: the initialisers of the members
/// from `e`, the class from `c`. Where neither is wanted, it is the bare call.
pub open spec fn apply_statement(
    t: TransformView,
    class_ref: Option<BoundIdentifierView>,
    base: nat,
) -> StatementView {
    let properties = taken("e"@, element_targets(t.state, base)) + taken("c"@, t.state.class_lhs);
    let call = helper_call(t, class_ref, base);
    if properties.len() == 0 {
        statement_of(call)
    } else {
        statement_of(assign_of(AssignmentTargetView::Object(properties), call))
    }
}

/// The call that runs the static initialisers, if there is a function that runs them.
pub open spec fn static_init(
    state: ClassStateView,
    class_ref: Option<BoundIdentifierView>,
    base: nat,
) -> Seq<StatementView> {
    let first = static_reference(state, class_ref, base);
    match state.init_static {
        Some(init) => seq![
            statement_of(
                call_with(read_of(init, first + count(class_ref)), read_or_this(class_ref, first)),
            ),
        ],
        None => Seq::empty(),
    }
}

/// The transform when it has put out the statements that apply the pending decorators. The
/// references in them have the numbers from `base` on.
pub open spec fn consumed(
    t: TransformView,
    class_ref: Option<BoundIdentifierView>,
    base: nat,
) -> TransformView {
    if !is_pending(t.state) {
        t
    } else {
        TransformView {
            state: ClassStateView {
                init_proto: None,
                init_static: None,
                init_proto_args: Seq::empty(),
                init_static_args: Seq::empty(),
                static_non_field_lhs: Seq::empty(),
                proto_non_field_lhs: Seq::empty(),
                static_field_lhs: Seq::empty(),
                proto_field_lhs: Seq::empty(),
                class_decorators: Seq::empty(),
                class_decorators_have_this: false,
                class_lhs: Seq::empty(),
                instance_brand: match t.version {
                    DecoratorVersion::V202311 => None,
                    DecoratorVersion::V202203 => t.state.instance_brand,
                },
                extra_stmts: t.state.extra_stmts.push(apply_statement(t, class_ref, base))
                    + static_init(t.state, class_ref, base),
                ..t.state
            },
            ..t
        }
    }
}

fn present_elements(elems: Vec<Option<Expression>>) -> (r: Vec<Expression>)
    ensures
        expressions_view(r@) == present(options_view(elems@)),
{
    let mut r: Vec<Expression> = Vec::new();
    let ghost all = options_view(elems@);
    assert(expressions_view(r@) =~= present(all.take(0)));
    for elem in it: elems.into_iter()
        invariant
            it.seq() == elems@,
            all == options_view(elems@),
            expressions_view(r@) == present(all.take(it.index())),
    {
        let ghost i = it.index();
        let ghost before = r@;
        assert(all.take(i + 1).drop_last() =~= all.take(i));
        if let Some(e) = elem {
            r.push(e);
            assert(expressions_view(r@) =~= expressions_view(before).push(e@));
        }
    }
    assert(all.take(all.len() as int) =~= all);
    r
}

fn push_argument(arguments: &mut Vec<Argument>, argument: Expression)
    ensures
        arguments_view(final(arguments)@) == arguments_view(old(arguments)@).push(
            ArgumentView::Expression(argument@),
        ),
{
    let ghost before = arguments@;
    arguments.push(Argument::Expression(argument));
    assert(arguments_view(arguments@) =~= arguments_view(before).push(
        ArgumentView::Expression(argument@),
    ));
}

fn test_of_brand(brand: &str) -> (r: Expression)
    ensures
        r@ == brand_test(brand@),
{
    let mut params: Vec<Identifier> = Vec::new();
    params.push(bare_identifier("o"));
    let test = PrivateInExpression { left: brand.to_owned(), right: bare_expression("o") };
    assert(private_in_view(test).left == brand@);
    let value = Expression::PrivateInExpression(Box::new(test));
    let mut body: Vec<Statement> = Vec::new();
    body.push(Statement::ReturnStatement(value));
    let function = Function { params, body };
    assert(statement_view(body@[0]) == StatementView::ReturnStatement(value@));
    assert(function_view(function).body =~= seq![StatementView::ReturnStatement(value@)]);
    assert(function_view(function).params =~= seq![bare("o"@)]);
    Expression::ArrowFunctionExpression(function)
}

fn take_targets(
    properties: &mut Vec<AssignmentTargetProperty>,
    key: &str,
    targets: Vec<AssignmentTarget>,
)
    ensures
        properties_view(final(properties)@) == properties_view(old(properties)@) + taken(
            key@,
            targets_view(targets@),
        ),
{
    let ghost before = properties@;
    if !targets.is_empty() {
        let target = AssignmentTarget::Array(targets);
        let p = property(key, target);
        properties.push(p);
        assert(properties_view(properties@) =~= properties_view(before).push(
            property_of(key@, target@),
        ));
    }
    assert(properties_view(properties@) =~= properties_view(before) + taken(
        key@,
        targets_view(targets@),
    ));
}

/// Appends a write of the variable, where there is one.
fn push_target(
    targets: &mut Vec<AssignmentTarget>,
    binding: &Option<BoundIdentifier>,
    ctx: &mut TraverseCtx<'_, ()>,
)
    requires
        room(*old(ctx), 0, 1),
        can_refer_to(*old(ctx), option_binding_view(*binding), 1),
    ensures
        targets_view(final(targets)@) == targets_view(old(targets)@) + option_target(
            option_binding_view(*binding),
            references(*old(ctx)).len(),
        ),
        issued(
            *old(ctx),
            *final(ctx),
            Seq::empty(),
            write_entries(option_binding_view(*binding)),
        ),
        scopes(*final(ctx)) == scopes(*old(ctx)),
{
    let ghost before = targets@;
    proof {
        lemma_issued_nothing(*ctx);
    }
    if let Some(b) = binding {
        targets.push(b.write(ctx));
    }
    assert(targets_view(targets@) =~= targets_view(before) + option_target(
        option_binding_view(*binding),
        references(*old(ctx)).len(),
    ));
}

/// The value of the variable, where there is one.
fn push_read(
    arguments: &mut Vec<Argument>,
    binding: &Option<BoundIdentifier>,
    ctx: &mut TraverseCtx<'_, ()>,
)
    requires
        room(*old(ctx), 0, 1),
        can_refer_to(*old(ctx), option_binding_view(*binding), 1),
    ensures
        ({
            let value = match option_binding_view(*binding) {
                Some(b) => seq![ArgumentView::Expression(read_of(b, references(*old(ctx)).len()))],
                None => Seq::empty(),
            };
            arguments_view(final(arguments)@) == arguments_view(old(arguments)@) + value
        }),
        issued(*old(ctx), *final(ctx), Seq::empty(), read_entries(option_binding_view(*binding))),
        scopes(*final(ctx)) == scopes(*old(ctx)),
{
    let ghost before = arguments_view(arguments@);
    proof {
        lemma_issued_nothing(*ctx);
    }
    if let Some(b) = binding {
        let value = b.read(ctx);
        push_argument(arguments, value);
        assert(before.push(ArgumentView::Expression(value@)) =~= before + seq![
            ArgumentView::Expression(value@),
        ]);
    } else {
        assert(before + Seq::empty() =~= before);
    }
}

impl Tc39Decorator {
    /// Takes the variables for the members out of the state.
    fn take_element_targets(&mut self) -> (r: Vec<AssignmentTarget>)
        ensures
            targets_view(r@) == old(self)@.state.static_non_field_lhs
                + old(self)@.state.proto_non_field_lhs + old(self)@.state.static_field_lhs
                + old(self)@.state.proto_field_lhs,
            final(self)@ == (TransformView {
                state: ClassStateView {
                    static_non_field_lhs: Seq::empty(),
                    proto_non_field_lhs: Seq::empty(),
                    static_field_lhs: Seq::empty(),
                    proto_field_lhs: Seq::empty(),
                    ..old(self)@.state
                },
                ..old(self)@
            }),
    {
        let ghost t = self@;
        let mut targets: Vec<AssignmentTarget> = Vec::new();
        targets.append(&mut self.state.static_non_field_lhs);
        targets.append(&mut self.state.proto_non_field_lhs);
        targets.append(&mut self.state.static_field_lhs);
        targets.append(&mut self.state.proto_field_lhs);
        assert(targets_view(targets@) =~= t.state.static_non_field_lhs + t.state.proto_non_field_lhs
            + t.state.static_field_lhs + t.state.proto_field_lhs);
        assert(self@.state =~= (ClassStateView {
            static_non_field_lhs: Seq::empty(),
            proto_non_field_lhs: Seq::empty(),
            static_field_lhs: Seq::empty(),
            proto_field_lhs: Seq::empty(),
            ..t.state
        }));
        targets
    }

    /// The call of the helper.
    #[verifier::spinoff_prover]
    #[verifier::rlimit(30)]
    fn call_helper(
        &self,
        class_ref: Option<&BoundIdentifier>,
        class_elems: Vec<Expression>,
        member_elems: Vec<Expression>,
        ctx: &mut TraverseCtx<'_, ()>,
    ) -> (r: Expression)
        requires
            room(*old(ctx), 0, 2),
            can_refer_to(*old(ctx), ref_view(class_ref), 2),
            can_refer_to(*old(ctx), self@.state.super_class, 2),
        ensures
            ({
                let state = self@.state;
                let base = references(*old(ctx)).len();
                let class = read_or_this(ref_view(class_ref), base);
                let class_array = ExpressionView::ArrayExpression(expressions_view(class_elems@));
                let member_array = ExpressionView::ArrayExpression(expressions_view(member_elems@));
                let super_class = super_argument(state, base + count(ref_view(class_ref)));
                let arguments = match self@.version {
                    DecoratorVersion::V202311 => seq![class, class_array, member_array] + this_flag(
                        state,
                    ) + brand_argument(state) + super_class,
                    DecoratorVersion::V202203 => seq![class, member_array, class_array]
                        + super_class,
                };
                r@ == call_of(
                    ExpressionView::Helper(helper_of(self@.version)),
                    plain_arguments(arguments),
                )
            }),
            issued(
                *old(ctx),
                *final(ctx),
                Seq::empty(),
                read_entries(ref_view(class_ref)) + read_entries(self@.state.super_class),
            ),
            scopes(*final(ctx)) == scopes(*old(ctx)),
    {
        let ghost state = self@.state;
        let mut args: Vec<Argument> = Vec::new();
        let first_arg = read_or_this_expression(class_ref, ctx);
        let ghost ctx1 = *ctx;
        let ghost e1 = read_entries(ref_view(class_ref));
        proof {
            lemma_can_refer(*old(ctx), ctx1, Seq::empty(), e1, state.super_class, 2);
        }
        let ghost first = first_arg@;
        push_argument(&mut args, first_arg);
        let ghost class_array = ExpressionView::ArrayExpression(expressions_view(class_elems@));
        let ghost member_array = ExpressionView::ArrayExpression(expressions_view(member_elems@));
        if self.is_2023_11() {
            push_argument(&mut args, Expression::ArrayExpression(class_elems));
            push_argument(&mut args, Expression::ArrayExpression(member_elems));
            assert(arguments_view(args@) =~= plain_arguments(
                seq![first, class_array, member_array],
            ));
            if self.state.class_decorators_have_this || self.state.instance_brand.is_some()
                || self.state.super_class.is_some() {
                let flag: i32 = if self.state.class_decorators_have_this {
                    1
                } else {
                    0
                };
                push_argument(&mut args, Expression::NumericLiteral(flag));
            }
            assert(arguments_view(args@) =~= plain_arguments(
                seq![first, class_array, member_array] + this_flag(state),
            ));
            if let Some(brand) = &self.state.instance_brand {
                push_argument(&mut args, test_of_brand(brand.as_str()));
            } else if self.state.super_class.is_some() {
                push_argument(&mut args, bare_expression("undefined"));
            }
            assert(arguments_view(args@) =~= plain_arguments(
                seq![first, class_array, member_array] + this_flag(state) + brand_argument(state),
            ));
        } else {
            push_argument(&mut args, Expression::ArrayExpression(member_elems));
            push_argument(&mut args, Expression::ArrayExpression(class_elems));
            assert(arguments_view(args@) =~= plain_arguments(
                seq![first, member_array, class_array],
            ));
        }
        let ghost start = match self@.version {
            DecoratorVersion::V202311 => seq![first, class_array, member_array] + this_flag(state)
                + brand_argument(state),
            DecoratorVersion::V202203 => seq![first, member_array, class_array],
        };
        push_read(&mut args, &self.state.super_class, ctx);
        proof {
            let last = super_argument(state, references(ctx1).len());
            assert(arguments_view(args@) =~= plain_arguments(start + last));
            lemma_issued_more(
                *old(ctx),
                ctx1,
                *ctx,
                Seq::empty(),
                e1,
                read_entries(state.super_class),
            );
        }
        call(Expression::Helper(self.helper()), args)
    }

    /// The writes of the variables for the members, taken out of the state.
    #[verifier::spinoff_prover]
    #[verifier::rlimit(30)]
    fn write_elements(
        &mut self,
        init_proto: &Option<BoundIdentifier>,
        init_static: &Option<BoundIdentifier>,
        ctx: &mut TraverseCtx<'_, ()>,
    ) -> (r: Vec<AssignmentTarget>)
        requires
            room(*old(ctx), 0, 2),
            can_refer_to(*old(ctx), option_binding_view(*init_proto), 2),
            can_refer_to(*old(ctx), option_binding_view(*init_static), 2),
        ensures
            ({
                let p = option_binding_view(*init_proto);
                let s = option_binding_view(*init_static);
                let state = ClassStateView { init_proto: p, init_static: s, ..old(self)@.state };
                &&& targets_view(r@) == element_targets(state, references(*old(ctx)).len())
                &&& issued(
                    *old(ctx),
                    *final(ctx),
                    Seq::empty(),
                    write_entries(p) + write_entries(s),
                )
            }),
            final(self)@ == (TransformView {
                state: ClassStateView {
                    static_non_field_lhs: Seq::empty(),
                    proto_non_field_lhs: Seq::empty(),
                    static_field_lhs: Seq::empty(),
                    proto_field_lhs: Seq::empty(),
                    ..old(self)@.state
                },
                ..old(self)@
            }),
            scopes(*final(ctx)) == scopes(*old(ctx)),
    {
        let ghost p = option_binding_view(*init_proto);
        let ghost s = option_binding_view(*init_static);
        let mut targets = self.take_element_targets();
        push_target(&mut targets, init_proto, ctx);
        let ghost ctx1 = *ctx;
        proof {
            lemma_can_refer(*old(ctx), ctx1, Seq::empty(), write_entries(p), s, 2);
        }
        push_target(&mut targets, init_static, ctx);
        proof {
            lemma_issued_more(
                *old(ctx),
                ctx1,
                *ctx,
                Seq::empty(),
                write_entries(p),
                write_entries(s),
            );
        }
        targets
    }

    /// Puts out the call that runs the static initialisers, if there is a function that runs them.
    #[verifier::spinoff_prover]
    #[verifier::rlimit(30)]
    fn run_static(
        &mut self,
        init_static: &Option<BoundIdentifier>,
        class_ref: Option<&BoundIdentifier>,
        ctx: &mut TraverseCtx<'_, ()>,
    )
        requires
            room(*old(ctx), 0, 2),
            can_refer_to(*old(ctx), option_binding_view(*init_static), 2),
            can_refer_to(*old(ctx), ref_view(class_ref), 2),
        ensures
            ({
                let cref = ref_view(class_ref);
                let first = references(*old(ctx)).len();
                let (run, entries) = match option_binding_view(*init_static) {
                    Some(init) => (
                        seq![
                            statement_of(
                                call_with(
                                    read_of(init, first + count(cref)),
                                    read_or_this(cref, first),
                                ),
                            ),
                        ],
                        read_entries(cref) + seq![read_entry(init)],
                    ),
                    None => (Seq::empty(), Seq::empty()),
                };
                &&& final(self)@ == (TransformView {
                    state: ClassStateView {
                        extra_stmts: old(self)@.state.extra_stmts + run,
                        ..old(self)@.state
                    },
                    ..old(self)@
                })
                &&& issued(*old(ctx), *final(ctx), Seq::empty(), entries)
            }),
            scopes(*final(ctx)) == scopes(*old(ctx)),
    {
        let ghost t = self@;
        proof {
            lemma_issued_nothing(*ctx);
        }
        if let Some(init) = init_static {
            let init_target = read_or_this_expression(class_ref, ctx);
            let ghost ctx1 = *ctx;
            let ghost e1 = read_entries(ref_view(class_ref));
            proof {
                lemma_can_refer(*old(ctx), ctx1, Seq::empty(), e1, Some(init@), 2);
            }
            let callee = init.read(ctx);
            proof {
                lemma_issued_more(
                    *old(ctx),
                    ctx1,
                    *ctx,
                    Seq::empty(),
                    e1,
                    seq![read_entry(init@)],
                );
            }
            let run = expression_statement(call_one(callee, init_target));
            self.state.extra_stmts.push(run);
            assert(self@.state.extra_stmts =~= t.state.extra_stmts + seq![run@]);
        } else {
            assert(self@.state.extra_stmts =~= t.state.extra_stmts + Seq::empty());
        }
    }

    /// Puts out the statements that apply the pending decorators, if there are any. `class_ref` is
    /// the variable that holds the class; without one the class is `this`.
    #[verifier::spinoff_prover]
    #[verifier::rlimit(50)]
    pub fn consume_inits(
        &mut self,
        class_ref: Option<&BoundIdentifier>,
        ctx: &mut TraverseCtx<'_, ()>,
    )
        requires
            is_pending(old(self)@.state) ==> can_apply(
                old(self)@.state,
                ref_view(class_ref),
                *old(ctx),
                APPLY_REFERENCES as int,
            ),
        ensures
            final(self)@ == consumed(
                old(self)@,
                ref_view(class_ref),
                references(*old(ctx)).len(),
            ),
            issued(
                *old(ctx),
                *final(ctx),
                Seq::empty(),
                consumed_entries(old(self)@.state, ref_view(class_ref)),
            ),
            scopes(*final(ctx)) == scopes(*old(ctx)),
    {
        let ghost t = self@;
        let ghost cref = ref_view(class_ref);
        let ghost base = references(*ctx).len();
        let ghost none = Seq::<Request>::empty();
        proof {
            lemma_issued_nothing(*ctx);
        }
        let has_proto = !self.state.init_proto_args.is_empty();
        let has_static = !self.state.init_static_args.is_empty();
        let has_class_decs = !self.state.class_decorators.is_empty();
        assert(is_pending(t.state) == (has_proto || has_static || has_class_decs));
        if !has_proto && !has_static && !has_class_decs {
            return;
        }
        let init_proto = self.state.init_proto.take();
        let init_static = self.state.init_static.take();
        let e_lhs = self.write_elements(&init_proto, &init_static, ctx);
        let ghost ctx1 = *ctx;
        let ghost e1 = write_entries(t.state.init_proto) + write_entries(t.state.init_static);
        assert(targets_view(e_lhs@) == element_targets(t.state, base));
        proof {
            lemma_can_apply(t.state, cref, *old(ctx), ctx1, e1, 6);
        }

        let mut static_args: Vec<Option<Expression>> = Vec::new();
        static_args.append(&mut self.state.init_static_args);
        let mut proto_args: Vec<Option<Expression>> = Vec::new();
        proto_args.append(&mut self.state.init_proto_args);
        let mut class_decs: Vec<Option<Expression>> = Vec::new();
        class_decs.append(&mut self.state.class_decorators);
        assert(options_view(static_args@) =~= t.state.init_static_args);
        assert(options_view(proto_args@) =~= t.state.init_proto_args);
        assert(options_view(class_decs@) =~= t.state.class_decorators);
        let mut member_elems = present_elements(static_args);
        let mut proto_elems = present_elements(proto_args);
        let class_elems = present_elements(class_decs);
        let ghost m1 = member_elems@;
        let ghost m2 = proto_elems@;
        member_elems.append(&mut proto_elems);
        assert(expressions_view(member_elems@) =~= expressions_view(m1) + expressions_view(m2));

        let call_expr = self.call_helper(class_ref, class_elems, member_elems, ctx);
        let ghost ctx2 = *ctx;
        let ghost e2 = read_entries(cref) + read_entries(t.state.super_class);
        proof {
            lemma_issued_more(*old(ctx), ctx1, ctx2, none, e1, e2);
            lemma_can_apply(t.state, cref, ctx1, ctx2, e2, 6 - e1.len());
            assert(call_expr@ == helper_call(t, cref, base));
        }
        if self.is_2023_11() {
            self.state.instance_brand = None;
        }
        self.state.class_decorators_have_this = false;

        let mut class_lhs: Vec<AssignmentTarget> = Vec::new();
        class_lhs.append(&mut self.state.class_lhs);
        assert(targets_view(class_lhs@) =~= t.state.class_lhs);
        let mut props: Vec<AssignmentTargetProperty> = Vec::new();
        take_targets(&mut props, "e", e_lhs);
        take_targets(&mut props, "c", class_lhs);
        let ghost properties = taken("e"@, element_targets(t.state, base)) + taken(
            "c"@,
            t.state.class_lhs,
        );
        assert(properties_view(props@) =~= properties);
        assert(properties.len() == props@.len());
        let statement = if props.is_empty() {
            expression_statement(call_expr)
        } else {
            let target = AssignmentTarget::Object(props);
            expression_statement(assignment(target, call_expr))
        };
        assert(statement@ == apply_statement(t, cref, base));
        self.state.extra_stmts.push(statement);
        assert(self@.state.extra_stmts =~= t.state.extra_stmts.push(statement@));
        self.run_static(&init_static, class_ref, ctx);
        proof {
            let e3 = if t.state.init_static is Some {
                read_entries(cref) + read_entries(t.state.init_static)
            } else {
                Seq::empty()
            };
            lemma_issued_more(*old(ctx), ctx2, *ctx, none, e1 + e2, e3);
            assert(e1 + e2 + e3 =~= consumed_entries(t.state, cref));
            assert(references(ctx2).len() == static_reference(t.state, cref, base));
            assert(self@.state.extra_stmts =~= consumed(t, cref, base).state.extra_stmts);
            assert(self@ =~= consumed(t, cref, base));
        }
    }
}

} // verus!
