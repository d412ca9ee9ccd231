//! What is put out for the decorators that were taken over.
use super::members::is_bare;
use super::taking::extends;
use crate::ast::{Helper, Span};
use crate::context::Entry;
use crate::decorator::apply::{
    apply_statement, consumed, consumed_entries, element_targets, helper_arguments, helper_call,
    present, taken,
};
use crate::decorator::{ClassStateView, DecoratorVersion, TransformView};
use crate::model::{
    ArgumentView, AssignmentTargetView, BoundIdentifierView, ExpressionView, IdentifierView,
    StatementView,
};
use vstd::prelude::*;

verus! {

pub open spec fn one(b: bool) -> nat {
    if b {
        1
    } else {
        0
    }
}

/// The variable where it is referred to under this number.
pub open spec fn mention(b: BoundIdentifierView, reference_id: nat) -> IdentifierView {
    IdentifierView {
        name: b.name,
        symbol_id: Some(b.symbol_id),
        reference_id: Some(reference_id),
    }
}

/// Whether decorators of members or of a class wait.
pub open spec fn waits(state: ClassStateView) -> bool {
    ||| state.init_static_args.len() > 0
    ||| state.init_proto_args.len() > 0
    ||| state.class_decorators.len() > 0
}

/// Whether an expression is the class: the variable that holds it, or `this` where there is none.
pub open spec fn is_class(
    e: ExpressionView,
    class_ref: Option<BoundIdentifierView>,
    reference_id: nat,
) -> bool {
    match class_ref {
        Some(b) => e == ExpressionView::Identifier(mention(b, reference_id)),
        None => e is ThisExpression,
    }
}

/// Whether an expression is the array of these elements, if none is missing.
pub open spec fn lists(e: ExpressionView, elements: Seq<Option<ExpressionView>>) -> bool {
    (forall|i: int| 0 <= i < elements.len() ==> (#[trigger] elements[i]) is Some) ==> {
        &&& e matches ExpressionView::ArrayExpression(list)
        &&& list.len() == elements.len()
        &&& forall|i: int| 0 <= i < elements.len() ==> Some(#[trigger] list[i]) == elements[i]
    }
}

/// What is missing leaves no trace in a list, and the rest stays in order.
pub proof fn missing_ones_are_left_out(s: Seq<Option<ExpressionView>>, e: ExpressionView)
    ensures
        present(Seq::empty()).len() == 0,
        present(s.push(None)) == present(s),
        present(s.push(Some(e))).len() == present(s).len() + 1,
        present(s.push(Some(e))).last() == e,
        present(s.push(Some(e))).drop_last() == present(s),
{
    assert(s.push(None).drop_last() =~= s);
    assert(s.push(Some(e)).drop_last() =~= s);
}

/// Whether an expression is a function that tells whether its parameter has the private name.
pub open spec fn tests_brand(e: ExpressionView, brand: Seq<char>) -> bool {
    &&& e matches ExpressionView::ArrowFunctionExpression(f)
    &&& f.params.len() == 1
    &&& is_bare(f.params[0], "o"@)
    &&& f.body.len() == 1
    &&& f.body[0] matches StatementView::ReturnStatement(ExpressionView::PrivateInExpression(test))
    &&& test.left == brand
    &&& test.right matches ExpressionView::Identifier(id)
    &&& is_bare(id, "o"@)
}

/// Whether an expression calls the helper of the version with the class, its decorators and the
/// descriptions of its members, the static ones first. The decorators of the class come before the
/// descriptions in the later version, and after them in the earlier one. In the later version there
/// follows whether the decorators of the class need `this`, where that or what comes after it is
/// known, then how to tell an instance, or `undefined` in its place if the superclass follows. The
/// superclass comes last.
pub open spec fn calls_helper(
    e: ExpressionView,
    t: TransformView,
    class_ref: Option<BoundIdentifierView>,
    base: nat,
) -> bool {
    let state = t.state;
    let first = base + one(state.init_proto is Some) + one(state.init_static is Some);
    let members = state.init_static_args + state.init_proto_args;
    let later = t.version == DecoratorVersion::V202311;
    let has_super = state.super_class is Some;
    let has_brand = state.instance_brand is Some;
    let flagged = later && (state.class_decorators_have_this || has_brand || has_super);
    let told = later && (has_brand || has_super);
    &&& e matches ExpressionView::CallExpression(call)
    &&& call.source is None
    &&& call.span == Span { start: 0, end: 0 }
    &&& call.callee == ExpressionView::Helper(
        if later {
            Helper::ApplyDecs2311
        } else {
            Helper::ApplyDecs2203R
        },
    )
    &&& call.arguments.len() == 3 + one(flagged) + one(told) + one(has_super)
    &&& forall|i: int| 0 <= i < call.arguments.len() ==> (#[trigger] call.arguments[i]) is Expression
    &&& is_class(call.arguments[0]->Expression_0, class_ref, first)
    &&& lists(
        call.arguments[if later {
            1
        } else {
            2
        }]->Expression_0,
        state.class_decorators,
    )
    &&& lists(
        call.arguments[if later {
            2
        } else {
            1
        }]->Expression_0,
        members,
    )
    &&& flagged ==> call.arguments[3]->Expression_0 == ExpressionView::NumericLiteral(
        if state.class_decorators_have_this {
            1
        } else {
            0
        },
    )
    &&& told ==> match state.instance_brand {
        Some(brand) => tests_brand(call.arguments[4]->Expression_0, brand),
        None => call.arguments[4]->Expression_0 matches ExpressionView::Identifier(id) && is_bare(
            id,
            "undefined"@,
        ),
    }
    &&& state.super_class matches Some(b) ==> call.arguments.last()->Expression_0
        == ExpressionView::Identifier(mention(b, first + one(class_ref is Some)))
}

/// The variables that take what the helper returns for the members: those of the static members
/// that are no fields, of the others that are no fields, of the static fields and of the other
/// fields, then the functions that run the initialisers of the instances and of the static members.
pub open spec fn receivers(state: ClassStateView, base: nat) -> Seq<AssignmentTargetView> {
    let groups = state.static_non_field_lhs + state.proto_non_field_lhs + state.static_field_lhs
        + state.proto_field_lhs;
    match (state.init_proto, state.init_static) {
        (None, None) => groups,
        (Some(p), None) => groups.push(AssignmentTargetView::Identifier(mention(p, base))),
        (None, Some(s)) => groups.push(AssignmentTargetView::Identifier(mention(s, base))),
        (Some(p), Some(s)) => groups.push(
            AssignmentTargetView::Identifier(mention(p, base)),
        ).push(AssignmentTargetView::Identifier(mention(s, base + 1))),
    }
}

/// Whether an expression applies the decorators: it calls the helper, and takes the result apart if
/// anything is wanted of it, the members from `e` and the class from `c`.
pub open spec fn applies(
    e: ExpressionView,
    t: TransformView,
    class_ref: Option<BoundIdentifierView>,
    base: nat,
) -> bool {
    let members = receivers(t.state, base);
    let class = t.state.class_lhs;
    if members.len() == 0 && class.len() == 0 {
        calls_helper(e, t, class_ref, base)
    } else {
        &&& e matches ExpressionView::AssignmentExpression(assign)
        &&& assign.left matches AssignmentTargetView::Object(properties)
        &&& properties.len() == one(members.len() > 0) + one(class.len() > 0)
        &&& members.len() > 0 ==> {
            &&& properties[0].key == "e"@
            &&& properties[0].binding == AssignmentTargetView::Array(members)
        }
        &&& class.len() > 0 ==> {
            &&& properties.last().key == "c"@
            &&& properties.last().binding == AssignmentTargetView::Array(class)
        }
        &&& calls_helper(assign.right, t, class_ref, base)
    }
}

/// Whether an expression runs the static initialisers on the class.
pub open spec fn runs_static(
    e: ExpressionView,
    init: BoundIdentifierView,
    class_ref: Option<BoundIdentifierView>,
    first: nat,
) -> bool {
    &&& e matches ExpressionView::CallExpression(call)
    &&& call.source is None
    &&& call.span == Span { start: 0, end: 0 }
    &&& call.callee == ExpressionView::Identifier(mention(init, first + one(class_ref is Some)))
    &&& call.arguments.len() == 1
    &&& call.arguments[0] matches ArgumentView::Expression(target)
    &&& is_class(target, class_ref, first)
}

proof fn lemma_present_keeps(s: Seq<Option<ExpressionView>>)
    requires
        forall|i: int| 0 <= i < s.len() ==> (#[trigger] s[i]) is Some,
    ensures
        present(s).len() == s.len(),
        forall|i: int| 0 <= i < s.len() ==> Some(#[trigger] present(s)[i]) == s[i],
    decreases s.len(),
{
    if s.len() > 0 {
        lemma_present_keeps(s.drop_last());
    }
}

proof fn lemma_lists(state: ClassStateView)
    ensures
        lists(
            ExpressionView::ArrayExpression(present(state.class_decorators)),
            state.class_decorators,
        ),
        lists(
            ExpressionView::ArrayExpression(
                present(state.init_static_args) + present(state.init_proto_args),
            ),
            state.init_static_args + state.init_proto_args,
        ),
{
    if forall|i: int|
        0 <= i < state.class_decorators.len() ==> (#[trigger] state.class_decorators[i]) is Some {
        lemma_present_keeps(state.class_decorators);
    }
    let members = state.init_static_args + state.init_proto_args;
    if forall|i: int| 0 <= i < members.len() ==> (#[trigger] members[i]) is Some {
        let (a, b) = (state.init_static_args, state.init_proto_args);
        assert forall|i: int| 0 <= i < a.len() implies (#[trigger] a[i]) is Some by {
            assert(members[i] == a[i]);
        }
        assert forall|i: int| 0 <= i < b.len() implies (#[trigger] b[i]) is Some by {
            assert(members[a.len() + i] == b[i]);
        }
        lemma_present_keeps(a);
        lemma_present_keeps(b);
        let list = present(a) + present(b);
        assert forall|i: int| 0 <= i < members.len() implies Some(#[trigger] list[i])
            == members[i] by {
            if i < a.len() {
                assert(Some(present(a)[i]) == a[i]);
            } else {
                assert(Some(present(b)[i - a.len()]) == b[i - a.len()]);
            }
        }
    }
}

#[verifier::spinoff_prover]
#[verifier::rlimit(60)]
proof fn lemma_calls_helper(
    t: TransformView,
    class_ref: Option<BoundIdentifierView>,
    base: nat,
)
    ensures
        calls_helper(helper_call(t, class_ref, base), t, class_ref, base),
{
    lemma_lists(t.state);
    let list = helper_arguments(t, class_ref, base);
    let call = helper_call(t, class_ref, base)->CallExpression_0;
    assert(call.arguments.len() == list.len());
    assert forall|i: int| 0 <= i < list.len() implies #[trigger] call.arguments[i]
        == ArgumentView::Expression(list[i]) by {}
    assert(call.arguments[0] == ArgumentView::Expression(list[0]));
    assert(call.arguments[1] == ArgumentView::Expression(list[1]));
    assert(call.arguments[2] == ArgumentView::Expression(list[2]));
}

#[verifier::spinoff_prover]
#[verifier::rlimit(40)]
proof fn lemma_applies(t: TransformView, class_ref: Option<BoundIdentifierView>, base: nat)
    ensures
        ({
            &&& apply_statement(t, class_ref, base) matches StatementView::ExpressionStatement(
                span,
                e,
            )
            &&& span == Span { start: 0, end: 0 }
            &&& applies(e, t, class_ref, base)
        }),
{
    lemma_calls_helper(t, class_ref, base);
    assert(element_targets(t.state, base) =~= receivers(t.state, base));
    let e = apply_statement(t, class_ref, base)->ExpressionStatement_1;
    let members = receivers(t.state, base);
    let class = t.state.class_lhs;
    let properties = taken("e"@, members) + taken("c"@, class);
    if members.len() > 0 {
        assert(properties[0] == taken("e"@, members)[0]);
    }
    if class.len() > 0 {
        assert(properties.last() == taken("c"@, class)[0]);
    }
}

/// If no decorator waits, nothing is put out and no reference is made. Otherwise one statement
/// applies the decorators that wait, and a second runs the static initialisers if there is a
/// function for it. They follow what was put out before; nothing waits any more, and the rest of the
/// state stays.
#[verifier::spinoff_prover]
#[verifier::rlimit(60)]
pub proof fn waiting_decorators_are_applied(
    t: TransformView,
    class_ref: Option<BoundIdentifierView>,
    base: nat,
)
    ensures
        !waits(t.state) ==> consumed(t, class_ref, base) == t,
        waits(t.state) ==> {
            let after = consumed(t, class_ref, base);
            let n = t.state.extra_stmts.len() as int;
            let last = base + one(t.state.init_proto is Some) + one(t.state.init_static is Some)
                + one(class_ref is Some) + one(t.state.super_class is Some);
            &&& after.version == t.version
            &&& after.extra_vars == t.extra_vars
            &&& after.pre_class_inits == t.pre_class_inits
            &&& after.state.init_proto is None
            &&& after.state.init_static is None
            &&& after.state.init_proto_args.len() == 0
            &&& after.state.init_static_args.len() == 0
            &&& after.state.static_non_field_lhs.len() == 0
            &&& after.state.proto_non_field_lhs.len() == 0
            &&& after.state.static_field_lhs.len() == 0
            &&& after.state.proto_field_lhs.len() == 0
            &&& after.state.class_decorators.len() == 0
            &&& !after.state.class_decorators_have_this
            &&& after.state.class_lhs.len() == 0
            &&& after.state.super_class == t.state.super_class
            &&& t.version == DecoratorVersion::V202311 ==> after.state.instance_brand is None
            &&& t.version == DecoratorVersion::V202203 ==> after.state.instance_brand
                == t.state.instance_brand
            &&& after.state.needs_expr_wrap == t.state.needs_expr_wrap
            &&& after.state.expr_wrap_class_ref == t.state.expr_wrap_class_ref
            &&& after.state.expr_extra_vars == t.state.expr_extra_vars
            &&& after.state.expr_pre_class_inits == t.state.expr_pre_class_inits
            &&& after.state.expr_extra_stmts == t.state.expr_extra_stmts
            &&& extends(
                after.state.extra_stmts,
                t.state.extra_stmts,
                1 + one(t.state.init_static is Some),
            )
            &&& t.state.init_static matches Some(init) ==> {
                &&& after.state.extra_stmts[n + 1] matches StatementView::ExpressionStatement(
                    run_span,
                    run,
                )
                &&& run_span == Span { start: 0, end: 0 }
                &&& runs_static(run, init, class_ref, last)
            }
            &&& after.state.extra_stmts[n] matches StatementView::ExpressionStatement(span, e)
            &&& span == Span { start: 0, end: 0 }
            &&& applies(e, t, class_ref, base)
        },
{
    if waits(t.state) {
        lemma_applies(t, class_ref, base);
        let extra = consumed(t, class_ref, base).state.extra_stmts;
        let n = t.state.extra_stmts.len() as int;
        assert(extra[n] == apply_statement(t, class_ref, base));
    }
}

/// The references that are made when waiting decorators are put out, in their order: the functions
/// that run initialisers are written, the class and the superclass are read for the helper, then the
/// class and the function are read to run the static initialisers.
pub proof fn references_of_applying(state: ClassStateView, class_ref: Option<BoundIdentifierView>)
    ensures
        !waits(state) ==> consumed_entries(state, class_ref).len() == 0,
        waits(state) ==> {
            let entries = consumed_entries(state, class_ref);
            let s = one(state.init_proto is Some) as int;
            let c = s + one(state.init_static is Some);
            let p = c + one(class_ref is Some);
            let r = p + one(state.super_class is Some);
            &&& state.init_proto matches Some(b) ==> entries[0] == (Entry {
                symbol_id: b.symbol_id,
                flags: 2,
            })
            &&& state.init_static matches Some(b) ==> entries[s] == (Entry {
                symbol_id: b.symbol_id,
                flags: 2,
            })
            &&& class_ref matches Some(b) ==> entries[c] == (Entry {
                symbol_id: b.symbol_id,
                flags: 1,
            })
            &&& state.super_class matches Some(b) ==> entries[p] == (Entry {
                symbol_id: b.symbol_id,
                flags: 1,
            })
            &&& state.init_static is None ==> entries.len() == r
            &&& state.init_static matches Some(b) ==> {
                &&& entries.len() == r + one(class_ref is Some) + 1
                &&& class_ref matches Some(k) ==> entries[r] == (Entry {
                    symbol_id: k.symbol_id,
                    flags: 1,
                })
                &&& entries.last() == (Entry { symbol_id: b.symbol_id, flags: 1 })
            }
        },
{
}

} // verus!
