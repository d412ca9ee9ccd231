//! What a class leaves in the transform when its decorators are taken over.
use super::members::{describes, is_applied, members_are_described};
use crate::ast::Span;
use crate::context::{Entry, Request, Supply};
use crate::decorator::transform::{
    class_entered, class_stripped, class_transformed, visited, visited_all, Progress,
};
use crate::decorator::{ClassStateView, DecoratorVersion, TransformView};
use crate::model::{
    AssignmentTargetView, BoundIdentifierView, ClassElementView, ClassView, ExpressionView,
    IdentifierView, StatementView,
};
use vstd::prelude::*;

verus! {

/// A part of the members whose decorators are applied.
pub enum Part {
    /// All of them.
    All,
    /// The static ones, or the others.
    Side(bool),
    /// The static fields, the other fields, the other static members, or the rest.
    Group(bool, bool),
    /// The static ones, or the others, that need a function that runs initialisers.
    Needing(DecoratorVersion, bool),
}

pub open spec fn is_static(member: ClassElementView) -> bool {
    match member {
        ClassElementView::Source(_) => false,
        ClassElementView::MethodDefinition(m) => m.is_static,
        ClassElementView::PropertyDefinition(p) => p.is_static,
        ClassElementView::AccessorProperty(a) => a.is_static,
    }
}

/// Whether a member belongs to a part. A field needs no function that runs initialisers in the
/// later version.
pub open spec fn belongs(member: ClassElementView, part: Part) -> bool {
    is_applied(member) && match part {
        Part::All => true,
        Part::Side(side) => is_static(member) == side,
        Part::Group(side, field) => is_static(member) == side && (member is PropertyDefinition)
            == field,
        Part::Needing(version, side) => is_static(member) == side && (version
            == DecoratorVersion::V202203 || !(member is PropertyDefinition)),
    }
}

/// How many members belong to a part.
pub open spec fn size(members: Seq<ClassElementView>, part: Part) -> nat
    decreases members.len(),
{
    if members.len() == 0 {
        0
    } else {
        size(members.drop_last(), part) + if belongs(members.last(), part) {
            1nat
        } else {
            0
        }
    }
}

/// The variables for one group of members.
pub open spec fn group(state: ClassStateView, side: bool, field: bool) -> Seq<AssignmentTargetView> {
    match (side, field) {
        (true, true) => state.static_field_lhs,
        (true, false) => state.static_non_field_lhs,
        (false, true) => state.proto_field_lhs,
        (false, false) => state.proto_non_field_lhs,
    }
}

/// The descriptions of the static members, or of the others.
pub open spec fn told(state: ClassStateView, side: bool) -> Seq<Option<ExpressionView>> {
    if side {
        state.init_static_args
    } else {
        state.init_proto_args
    }
}

/// The function that runs the initialisers of the static members, or of the others.
pub open spec fn function(state: ClassStateView, side: bool) -> Option<BoundIdentifierView> {
    if side {
        state.init_static
    } else {
        state.init_proto
    }
}

/// How many functions that run initialisers are made for these members, of one side.
pub open spec fn made(t: TransformView, members: Seq<ClassElementView>, side: bool) -> nat {
    if function(t.state, side) is None && size(members, Part::Needing(t.version, side)) > 0 {
        1
    } else {
        0
    }
}

/// How many variables are asked for these members: one for each, and one for each function.
pub open spec fn asked(t: TransformView, members: Seq<ClassElementView>) -> nat {
    size(members, Part::All) + made(t, members, true) + made(t, members, false)
}

/// Whether the later state differs from the earlier one only in what members are taken over into.
pub open spec fn only_members_differ(t: TransformView, u: TransformView) -> bool {
    &&& u.version == t.version
    &&& u.pre_class_inits == t.pre_class_inits
    &&& u.state.class_decorators == t.state.class_decorators
    &&& u.state.class_decorators_have_this == t.state.class_decorators_have_this
    &&& u.state.class_lhs == t.state.class_lhs
    &&& u.state.super_class == t.state.super_class
    &&& u.state.instance_brand == t.state.instance_brand
    &&& u.state.extra_stmts == t.state.extra_stmts
    &&& u.state.needs_expr_wrap == t.state.needs_expr_wrap
    &&& u.state.expr_wrap_class_ref == t.state.expr_wrap_class_ref
    &&& u.state.expr_extra_vars == t.state.expr_extra_vars
    &&& u.state.expr_pre_class_inits == t.state.expr_pre_class_inits
    &&& u.state.expr_extra_stmts == t.state.expr_extra_stmts
}

/// Whether one list starts with the other, and has so many elements more.
pub open spec fn extends<A>(longer: Seq<A>, shorter: Seq<A>, more: nat) -> bool {
    &&& longer.len() == shorter.len() + more
    &&& forall|k: int| 0 <= k < shorter.len() ==> #[trigger] longer[k] == shorter[k]
}

/// Whether these members were taken over between two states: what was there stays, and each list
/// grows by one for each member that belongs in it. The function of a side is there if and only if
/// it was before or a member of that side needs it.
pub open spec fn grown(p: Progress, members: Seq<ClassElementView>, q: Progress) -> bool {
    let t = p.transform;
    let u = q.transform;
    &&& only_members_differ(t, u)
    &&& extends(q.requests, p.requests, asked(t, members))
    &&& extends(q.entries, p.entries, size(members, Part::All))
    &&& extends(u.extra_vars, t.extra_vars, size(members, Part::All))
    &&& forall|side: bool, field: bool|
        extends(
            #[trigger] group(u.state, side, field),
            group(t.state, side, field),
            size(members, Part::Group(side, field)),
        )
    &&& forall|side: bool|
        extends(
            #[trigger] told(u.state, side),
            told(t.state, side),
            size(members, Part::Side(side)),
        )
    &&& forall|side: bool|
        ((#[trigger] function(u.state, side)) is Some <==> function(t.state, side) is Some || size(
            members,
            Part::Needing(t.version, side),
        ) > 0)
    &&& forall|side: bool|
        function(t.state, side) is Some ==> #[trigger] function(u.state, side) == function(
            t.state,
            side,
        )
}

/// Whether the `i`th member was taken over between two states. Its variable is the next that is
/// asked for, is declared, and stands among those of its group in the order of the members, as a
/// write that is noted. Its description stands among those of its side in that order. If it is the
/// first of its side to need a function that runs initialisers, and there was none, that function is
/// the variable asked for next.
pub open spec fn placed(
    p: Progress,
    members: Seq<ClassElementView>,
    supply: Supply,
    i: int,
    q: Progress,
) -> bool {
    let t = p.transform;
    let u = q.transform;
    let member = members[i];
    let earlier = members.take(i);
    let side = is_static(member);
    let field = member is PropertyDefinition;
    let n = (p.requests.len() + asked(t, earlier)) as int;
    let rank = size(earlier, Part::All);
    let e = (p.entries.len() + rank) as int;
    let variable = supply.fresh[n];
    &&& q.requests[n] == Request::Uid("_init"@)
    &&& q.entries[e] == Entry { symbol_id: variable.symbol_id, flags: 2 }
    &&& u.extra_vars[(t.extra_vars.len() + rank) as int] == (
        variable,
        None::<ExpressionView>,
    )
    &&& group(u.state, side, field)[(group(t.state, side, field).len() + size(
        earlier,
        Part::Group(side, field),
    )) as int] == AssignmentTargetView::Identifier(
        IdentifierView {
            name: variable.name,
            symbol_id: Some(variable.symbol_id),
            reference_id: Some((supply.base + e) as nat),
        },
    )
    &&& told(u.state, side)[(told(t.state, side).len() + size(
        earlier,
        Part::Side(side),
    )) as int] matches Some(ExpressionView::ArrayExpression(list))
    &&& describes(t.version, list, member)
    &&& belongs(member, Part::Needing(t.version, side)) && function(t.state, side) is None && size(
        earlier,
        Part::Needing(t.version, side),
    ) == 0 ==> {
        &&& function(u.state, side) == Some(supply.fresh[n + 1])
        &&& q.requests[n + 1] == Request::Uid(
            if side {
                "_initStatic"@
            } else {
                "_initProto"@
            },
        )
    }
}

proof fn lemma_grown(p: Progress, members: Seq<ClassElementView>, supply: Supply)
    ensures
        grown(p, members, visited_all(p, members, supply)),
    decreases members.len(),
{
    if members.len() > 0 {
        let before = members.drop_last();
        lemma_grown(p, before, supply);
        let m = visited_all(p, before, supply);
        let q = visited(m, members.last(), supply);
        if is_applied(members.last()) {
            lemma_one_more(m, members.last(), supply);
        }
        lemma_grown_step(p, before, members.last(), m, q);
        assert(before.push(members.last()) =~= members);
    }
}

/// What one member adds.
spec fn one_more(m: Progress, member: ClassElementView, supply: Supply, q: Progress) -> bool {
    let t = m.transform;
    let u = q.transform;
    let side = is_static(member);
    let field = member is PropertyDefinition;
    let n = m.requests.len() as int;
    let needs = belongs(member, Part::Needing(t.version, side)) && function(t.state, side) is None;
    let variable = supply.fresh[n];
    &&& only_members_differ(t, u)
    &&& extends(q.requests, m.requests, if needs { 2 } else { 1 })
    &&& q.requests[n] == Request::Uid("_init"@)
    &&& extends(q.entries, m.entries, 1)
    &&& q.entries[m.entries.len() as int] == Entry { symbol_id: variable.symbol_id, flags: 2 }
    &&& extends(u.extra_vars, t.extra_vars, 1)
    &&& u.extra_vars[t.extra_vars.len() as int] == (variable, None::<ExpressionView>)
    &&& extends(group(u.state, side, field), group(t.state, side, field), 1)
    &&& group(u.state, side, field)[group(t.state, side, field).len() as int]
        == AssignmentTargetView::Identifier(
        IdentifierView {
            name: variable.name,
            symbol_id: Some(variable.symbol_id),
            reference_id: Some(supply.base + m.entries.len()),
        },
    )
    &&& forall|s: bool, f: bool|
        (s, f) != (side, field) ==> #[trigger] group(u.state, s, f) == group(t.state, s, f)
    &&& extends(told(u.state, side), told(t.state, side), 1)
    &&& told(u.state, side)[told(t.state, side).len() as int] matches Some(
        ExpressionView::ArrayExpression(list),
    )
    &&& describes(t.version, list, member)
    &&& told(u.state, !side) == told(t.state, !side)
    &&& function(u.state, !side) == function(t.state, !side)
    &&& if needs {
        &&& function(u.state, side) == Some(supply.fresh[n + 1])
        &&& q.requests[n + 1] == Request::Uid(
            if side {
                "_initStatic"@
            } else {
                "_initProto"@
            },
        )
    } else {
        function(u.state, side) == function(t.state, side)
    }
}

proof fn lemma_one_more(m: Progress, member: ClassElementView, supply: Supply)
    requires
        is_applied(member),
    ensures
        one_more(m, member, supply, visited(m, member, supply)),
{
    members_are_described(m.transform.version, member);
}

proof fn lemma_grown_step(
    p: Progress,
    before: Seq<ClassElementView>,
    member: ClassElementView,
    m: Progress,
    q: Progress,
)
    requires
        grown(p, before, m),
        is_applied(member) ==> exists|supply: Supply| one_more(m, member, supply, q),
        !is_applied(member) ==> q == m,
    ensures
        grown(p, before.push(member), q),
{
    let members = before.push(member);
    assert(members.drop_last() =~= before);
    assert forall|part: Part| #[trigger]
        size(members, part) == size(before, part) + if belongs(member, part) {
            1nat
        } else {
            0
        } by {
        assert(members.drop_last() =~= before);
    }
    let t = p.transform;
    let u = q.transform;
    let v = m.transform;
    if is_applied(member) {
        let supply = choose|supply: Supply| one_more(m, member, supply, q);
        assert(one_more(m, member, supply, q));
    }
    assert forall|side: bool, field: bool|
        extends(
            #[trigger] group(u.state, side, field),
            group(t.state, side, field),
            size(members, Part::Group(side, field)),
        ) by {
        assert(extends(
            group(v.state, side, field),
            group(t.state, side, field),
            size(before, Part::Group(side, field)),
        ));
        assert forall|k: int| 0 <= k < group(t.state, side, field).len() implies #[trigger] group(
            u.state,
            side,
            field,
        )[k] == group(t.state, side, field)[k] by {
            assert(group(u.state, side, field)[k] == group(v.state, side, field)[k]);
        }
    }
    assert forall|side: bool|
        extends(
            #[trigger] told(u.state, side),
            told(t.state, side),
            size(members, Part::Side(side)),
        ) by {
        assert(extends(told(v.state, side), told(t.state, side), size(before, Part::Side(side))));
        assert forall|k: int| 0 <= k < told(t.state, side).len() implies #[trigger] told(
            u.state,
            side,
        )[k] == told(t.state, side)[k] by {
            assert(told(u.state, side)[k] == told(v.state, side)[k]);
        }
    }
    assert forall|k: int| 0 <= k < p.requests.len() implies #[trigger] q.requests[k]
        == p.requests[k] by {
        assert(q.requests[k] == m.requests[k]);
    }
    assert forall|k: int| 0 <= k < p.entries.len() implies #[trigger] q.entries[k]
        == p.entries[k] by {
        assert(q.entries[k] == m.entries[k]);
    }
    assert forall|k: int| 0 <= k < t.extra_vars.len() implies #[trigger] u.extra_vars[k]
        == t.extra_vars[k] by {
        assert(u.extra_vars[k] == v.extra_vars[k]);
    }
    assert forall|side: bool|
        ((#[trigger] function(u.state, side)) is Some <==> function(t.state, side) is Some || size(
            members,
            Part::Needing(t.version, side),
        ) > 0) by {
        assert(function(v.state, side) is Some <==> function(t.state, side) is Some || size(
            before,
            Part::Needing(t.version, side),
        ) > 0);
    }
    assert forall|side: bool|
        function(t.state, side) is Some implies #[trigger] function(u.state, side) == function(
        t.state,
        side,
    ) by {
        assert(function(v.state, side) == function(t.state, side));
    }
    assert(function(v.state, true) is Some <==> function(t.state, true) is Some || size(
        before,
        Part::Needing(t.version, true),
    ) > 0);
    assert(function(v.state, false) is Some <==> function(t.state, false) is Some || size(
        before,
        Part::Needing(t.version, false),
    ) > 0);
    let (a, b) = (Part::Needing(t.version, true), Part::Needing(t.version, false));
    assert(size(members, Part::All) >= size(before, Part::All));
    assert(size(members, a) >= size(before, a));
    assert(size(members, b) >= size(before, b));
}

proof fn lemma_size_of_start(members: Seq<ClassElementView>, i: int, part: Part)
    requires
        0 <= i < members.len(),
    ensures
        size(members.take(i), part) + (if belongs(members[i], part) {
            1nat
        } else {
            0
        }) <= size(members, part),
    decreases members.len(),
{
    let before = members.drop_last();
    if i < before.len() {
        lemma_size_of_start(before, i, part);
        assert(before.take(i) =~= members.take(i));
    } else {
        assert(members.take(i) =~= before);
    }
}

#[verifier::spinoff_prover]
#[verifier::rlimit(60)]
proof fn lemma_placed(p: Progress, members: Seq<ClassElementView>, supply: Supply, i: int)
    requires
        0 <= i < members.len(),
        is_applied(members[i]),
    ensures
        placed(p, members, supply, i, visited_all(p, members, supply)),
    decreases members.len(),
{
    let before = members.drop_last();
    let last = members.last();
    let m = visited_all(p, before, supply);
    let q = visited_all(p, members, supply);
    assert(q == visited(m, last, supply));
    lemma_grown(p, before, supply);
    if is_applied(last) {
        lemma_one_more(m, last, supply);
    }
    let side = is_static(members[i]);
    let field = members[i] is PropertyDefinition;
    let version = p.transform.version;
    assert(extends(
        group(m.transform.state, side, field),
        group(p.transform.state, side, field),
        size(before, Part::Group(side, field)),
    ));
    assert(extends(
        told(m.transform.state, side),
        told(p.transform.state, side),
        size(before, Part::Side(side)),
    ));
    assert(function(m.transform.state, side) is Some <==> function(p.transform.state, side) is Some
        || size(before, Part::Needing(version, side)) > 0);
    if i == before.len() {
        assert(members.take(i) =~= before);
        assert(members[i] == last);
    } else {
        lemma_placed(p, before, supply, i);
        assert(before.take(i) =~= members.take(i));
        assert(before[i] == members[i]);
        lemma_size_of_start(before, i, Part::All);
        lemma_size_of_start(before, i, Part::Group(side, field));
        lemma_size_of_start(before, i, Part::Side(side));
        lemma_size_of_start(before, i, Part::Needing(version, true));
        lemma_size_of_start(before, i, Part::Needing(version, false));
        lemma_placed_step(p, before, supply, i, m, q, last);
    }
}

#[verifier::spinoff_prover]
#[verifier::rlimit(60)]
proof fn lemma_placed_step(
    p: Progress,
    before: Seq<ClassElementView>,
    supply: Supply,
    i: int,
    m: Progress,
    q: Progress,
    last: ClassElementView,
)
    requires
        0 <= i < before.len(),
        is_applied(before[i]),
        placed(p, before, supply, i, m),
        grown(p, before, m),
        is_applied(last) ==> one_more(m, last, supply, q),
        !is_applied(last) ==> q == m,
    ensures
        placed(p, before.push(last), supply, i, q),
{
    let members = before.push(last);
    let earlier = before.take(i);
    assert(members.take(i) =~= earlier);
    assert(members[i] == before[i]);
    let t = p.transform;
    let v = m.transform;
    let u = q.transform;
    let side = is_static(before[i]);
    let field = before[i] is PropertyDefinition;
    let version = t.version;
    lemma_size_of_start(before, i, Part::All);
    lemma_size_of_start(before, i, Part::Group(side, field));
    lemma_size_of_start(before, i, Part::Side(side));
    lemma_size_of_start(before, i, Part::Needing(version, true));
    lemma_size_of_start(before, i, Part::Needing(version, false));
    let n = (p.requests.len() + asked(t, earlier)) as int;
    let rank = size(earlier, Part::All);
    let e = (p.entries.len() + rank) as int;
    let at = (group(t.state, side, field).len() + size(earlier, Part::Group(side, field))) as int;
    let line = (told(t.state, side).len() + size(earlier, Part::Side(side))) as int;
    assert(extends(
        group(v.state, side, field),
        group(t.state, side, field),
        size(before, Part::Group(side, field)),
    ));
    assert(extends(told(v.state, side), told(t.state, side), size(before, Part::Side(side))));
    assert(function(v.state, side) is Some <==> function(t.state, side) is Some || size(
        before,
        Part::Needing(version, side),
    ) > 0);
    assert(q.requests[n] == m.requests[n]);
    assert(q.entries[e] == m.entries[e]);
    assert(u.extra_vars[(t.extra_vars.len() + rank) as int] == v.extra_vars[(t.extra_vars.len()
        + rank) as int]);
    assert(group(u.state, side, field)[at] == group(v.state, side, field)[at]);
    assert(told(u.state, side)[line] == told(v.state, side)[line]);
    if belongs(before[i], Part::Needing(version, side)) && function(t.state, side) is None && size(
        earlier,
        Part::Needing(version, side),
    ) == 0 {
        assert(made(t, before, side) == 1);
        assert(made(t, earlier, side) == 0);
        assert(made(t, earlier, !side) <= made(t, before, !side));
        assert(n + 1 < m.requests.len());
        assert(q.requests[n + 1] == m.requests[n + 1]);
        assert(function(u.state, side) == function(v.state, side));
    }
}

/// Every decorated method, getter, setter, field and accessor of a class is taken over, in the order
/// of the source: its variable is asked for, declared and written to, in the place of its group that
/// its order gives it, and it is described once.
pub proof fn decorated_members_are_taken_over_in_order(
    t: TransformView,
    class: ClassView,
    supply: Supply,
    i: int,
)
    requires
        0 <= i < class.body.len(),
        is_applied(class.body[i]),
    ensures
        placed(
            class_entered(t, class, supply),
            class.body,
            supply,
            i,
            class_transformed(t, class, supply),
        ),
{
    lemma_placed(class_entered(t, class, supply), class.body, supply, i);
}

/// Nothing else is taken over: every list has as many elements more as there are decorated members
/// that belong in it, and what it held before stays in front.
pub proof fn nothing_else_is_taken_over(t: TransformView, class: ClassView, supply: Supply)
    ensures
        grown(
            class_entered(t, class, supply),
            class.body,
            class_transformed(t, class, supply),
        ),
{
    lemma_grown(class_entered(t, class, supply), class.body, supply);
}

/// Of two decorated members of the same group, the variable of the one that comes first in the
/// source is made first, and stands first among those that take what the helper returns. So do their
/// descriptions.
pub proof fn variables_keep_the_order_of_members(
    t: TransformView,
    members: Seq<ClassElementView>,
    i: int,
    j: int,
)
    requires
        0 <= i < j < members.len(),
        is_applied(members[i]),
        is_applied(members[j]),
        is_static(members[i]) == is_static(members[j]),
    ensures
        asked(t, members.take(i)) < asked(t, members.take(j)),
        size(members.take(i), Part::All) < size(members.take(j), Part::All),
        size(members.take(i), Part::Side(is_static(members[i]))) < size(
            members.take(j),
            Part::Side(is_static(members[i])),
        ),
        ({
            let field = members[i] is PropertyDefinition;
            let part = Part::Group(is_static(members[i]), field);
            (members[j] is PropertyDefinition) == field ==> size(members.take(i), part) < size(
                members.take(j),
                part,
            )
        }),
{
    let later = members.take(j);
    assert(later.take(i) =~= members.take(i));
    let side = is_static(members[i]);
    lemma_size_of_start(later, i, Part::All);
    lemma_size_of_start(later, i, Part::Side(side));
    lemma_size_of_start(later, i, Part::Group(side, members[i] is PropertyDefinition));
    lemma_size_of_start(later, i, Part::Needing(t.version, true));
    lemma_size_of_start(later, i, Part::Needing(t.version, false));
}

proof fn lemma_size_and_existence(members: Seq<ClassElementView>, part: Part)
    ensures
        size(members, part) > 0 <==> exists|i: int|
            0 <= i < members.len() && belongs(#[trigger] members[i], part),
    decreases members.len(),
{
    if members.len() > 0 {
        let before = members.drop_last();
        lemma_size_and_existence(before, part);
        if size(before, part) > 0 {
            let i = choose|i: int| 0 <= i < before.len() && belongs(#[trigger] before[i], part);
            assert(belongs(members[i], part));
        }
        if exists|i: int| 0 <= i < members.len() && belongs(#[trigger] members[i], part) {
            let i = choose|i: int| 0 <= i < members.len() && belongs(#[trigger] members[i], part);
            if i < before.len() {
                assert(belongs(before[i], part));
            }
        }
        if belongs(members.last(), part) {
            assert(belongs(members[members.len() - 1], part));
        }
    }
}

/// The function that runs the initialisers of the instances is there if and only if it was before or
/// a decorated member that is not static needs it, and that of the static members if and only if it
/// was before or a decorated static member needs it. Neither depends on the other. A method, a getter,
/// a setter and an accessor always need it, a field in the earlier version only.
pub proof fn each_side_has_its_function(t: TransformView, class: ClassView, supply: Supply)
    ensures
        ({
            let after = class_transformed(t, class, supply).transform.state;
            &&& after.init_proto is Some <==> {
                ||| t.state.init_proto is Some
                ||| exists|i: int|
                    {
                        &&& 0 <= i < class.body.len()
                        &&& is_applied(#[trigger] class.body[i])
                        &&& !is_static(class.body[i])
                        &&& t.version == DecoratorVersion::V202203 || !(
                        class.body[i] is PropertyDefinition)
                    }
            }
            &&& after.init_static is Some <==> {
                ||| t.state.init_static is Some
                ||| exists|i: int|
                    {
                        &&& 0 <= i < class.body.len()
                        &&& is_applied(#[trigger] class.body[i])
                        &&& is_static(class.body[i])
                        &&& t.version == DecoratorVersion::V202203 || !(
                        class.body[i] is PropertyDefinition)
                    }
            }
        }),
{
    let body = class.body;
    nothing_else_is_taken_over(t, class, supply);
    let after = class_transformed(t, class, supply).transform.state;
    let proto = Part::Needing(t.version, false);
    let statics = Part::Needing(t.version, true);
    lemma_size_and_existence(body, proto);
    lemma_size_and_existence(body, statics);
    assert(function(after, false) is Some <==> function(t.state, false) is Some || size(body, proto)
        > 0);
    assert(function(after, true) is Some <==> function(t.state, true) is Some || size(body, statics)
        > 0);
    assert forall|i: int| 0 <= i < body.len() implies (belongs(#[trigger] body[i], proto) <==> {
        &&& is_applied(body[i])
        &&& !is_static(body[i])
        &&& t.version == DecoratorVersion::V202203 || !(body[i] is PropertyDefinition)
    }) by {}
    if size(body, proto) > 0 {
        let i = choose|i: int| 0 <= i < body.len() && belongs(#[trigger] body[i], proto);
        assert(is_applied(body[i]));
    }
    if size(body, statics) > 0 {
        let i = choose|i: int| 0 <= i < body.len() && belongs(#[trigger] body[i], statics);
        assert(is_applied(body[i]));
    }
}

/// The class itself is taken over before its members: its decorators join those that wait, in their
/// order. Its superclass is copied to a variable of its own before the class, and read by the class
/// from there; the variable is declared, and both references are noted.
pub proof fn class_itself_is_taken_over(
    t: TransformView,
    class: ClassView,
    supply: Supply,
    i: int,
)
    ensures
        ({
            let p = class_entered(t, class, supply);
            let u = p.transform;
            let v = supply.fresh[0];
            let waiting = t.state.class_decorators;
            &&& u.version == t.version
            &&& u.state == (ClassStateView {
                class_decorators: u.state.class_decorators,
                super_class: u.state.super_class,
                ..t.state
            })
            &&& extends(u.state.class_decorators, waiting, class.decorators.len())
            &&& 0 <= i < class.decorators.len() ==> u.state.class_decorators[waiting.len() + i]
                == Some(class.decorators[i].expression)
            &&& class.super_class is None ==> {
                &&& u.state.super_class == t.state.super_class
                &&& u.extra_vars == t.extra_vars
                &&& u.pre_class_inits == t.pre_class_inits
                &&& p.requests.len() == 0
                &&& p.entries.len() == 0
                &&& class_stripped(class, supply).super_class is None
            }
            &&& class.super_class matches Some(super_class) ==> {
                &&& u.state.super_class == Some(v)
                &&& u.extra_vars == t.extra_vars.push((v, None))
                &&& extends(u.pre_class_inits, t.pre_class_inits, 1)
                &&& p.requests == seq![Request::Uid("_super"@)]
                &&& p.entries == seq![
                    Entry { symbol_id: v.symbol_id, flags: 2 },
                    Entry { symbol_id: v.symbol_id, flags: 1 },
                ]
                &&& class_stripped(class, supply).super_class == Some(
                    ExpressionView::Identifier(
                        IdentifierView {
                            name: v.name,
                            symbol_id: Some(v.symbol_id),
                            reference_id: Some(supply.base + 1),
                        },
                    ),
                )
                &&& u.pre_class_inits.last() matches StatementView::ExpressionStatement(
                    span,
                    ExpressionView::AssignmentExpression(assign),
                )
                &&& span == Span { start: 0, end: 0 }
                &&& assign.left == AssignmentTargetView::Identifier(
                    IdentifierView {
                        name: v.name,
                        symbol_id: Some(v.symbol_id),
                        reference_id: Some(supply.base),
                    },
                )
                &&& assign.right == ExpressionView::CloneIn(Box::new(super_class))
            }
        }),
{
}

} // verus!
