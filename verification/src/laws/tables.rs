//! What the context is asked for, and how much room that takes.
use crate::ast::ClassType;
use crate::context::{
    all_short, current_scope, hoist_scope, is_digit, is_uid, issued, mentions, references, resolved,
    room, scopes, short_names, supplied, symbols, taken_names, without_digits, without_underscores,
    Entry, Request,
};
use crate::decorator::visit::{can_enter, can_exit, can_replace, can_wrap};
use crate::decorator::TransformView;
use crate::model::{BoundIdentifierView, ClassView};
use oxc_traverse::TraverseCtx;
use vstd::prelude::*;
use vstd::utf8::encode_utf8;

verus! {

/// The supply between two moments is made of the variables that are new in the symbol table, in
/// order, and of the numbers of references from the first free one on.
pub proof fn supply_is_what_is_new(
    before: TraverseCtx<'_, ()>,
    after: TraverseCtx<'_, ()>,
    i: int,
)
    requires
        symbols(before).len() <= symbols(after).len(),
    ensures
        ({
            let supply = supplied(before, after);
            let n = symbols(before).len();
            &&& supply.base == references(before).len()
            &&& supply.fresh.len() == symbols(after).len() - n
            &&& 0 <= i < supply.fresh.len() ==> {
                &&& supply.fresh[i].symbol_id == n + i
                &&& supply.fresh[i].name == symbols(after)[n + i].0
            }
        }),
{
}

/// Each request adds one `var` of the hoist scope to the symbol table, with the very name that was
/// asked for, where one was. Each reference adds one row to the reference table, from the current
/// scope to its symbol and with its flags. The rows that were there stay as they were, and the
/// traversal stays where it is.
pub proof fn requests_and_references_are_rows(
    before: TraverseCtx<'_, ()>,
    after: TraverseCtx<'_, ()>,
    requests: Seq<Request>,
    entries: Seq<Entry>,
    i: int,
)
    requires
        issued(before, after, requests, entries),
    ensures
        ({
            let n = symbols(before).len();
            let m = references(before).len();
            &&& symbols(after).len() == n + requests.len()
            &&& 0 <= i < n ==> symbols(after)[i] == symbols(before)[i]
            &&& 0 <= i < requests.len() ==> {
                let row = symbols(after)[n + i];
                &&& row.1 == hoist_scope(before)
                &&& row.2 == 1
                &&& requests[i] matches Request::Binding(name) ==> row.0 == name
            }
            &&& references(after).len() == m + entries.len()
            &&& 0 <= i < m ==> references(after)[i] == references(before)[i]
            &&& 0 <= i < entries.len() ==> {
                let row = references(after)[m + i];
                &&& row.0 == Some(entries[i].symbol_id)
                &&& row.1 == current_scope(before)
                &&& row.2 == entries[i].flags
                &&& entries[i].symbol_id < symbols(after).len()
            }
            &&& current_scope(after) == current_scope(before)
            &&& hoist_scope(after) == hoist_scope(before)
        }),
{
    if 0 <= i < requests.len() {
        let n = symbols(before).len();
        assert(symbols(after)[n + i].1 == hoist_scope(before));
        assert(supplied(before, after).fresh[i].name == symbols(after)[n + i].0);
        match requests[i] {
            Request::Uid(_) => {},
            Request::Binding(_) => {},
        }
    }
}

/// Where all names are short, a unique name is one that was not taken. It is taken from then on, and
/// no two are the same.
pub proof fn unique_names_are_new(
    before: TraverseCtx<'_, ()>,
    after: TraverseCtx<'_, ()>,
    requests: Seq<Request>,
    entries: Seq<Entry>,
    i: int,
    j: int,
)
    requires
        issued(before, after, requests, entries),
        short_names(before),
        forall|k: int|
            0 <= k < requests.len() ==> ((#[trigger] requests[k]) matches Request::Binding(name)
                ==> encode_utf8(name).len() <= 0x8000_0000),
        0 <= i < requests.len(),
        requests[i] is Uid,
    ensures
        ({
            let n = symbols(before).len();
            let name = symbols(after)[n + i].0;
            &&& is_uid(name, requests[i]->Uid_0)
            &&& !taken_names(before).contains(name)
            &&& taken_names(after).contains(name)
            &&& 0 <= j < requests.len() && j != i && requests[j] is Uid ==> symbols(after)[n + j].0
                != name
        }),
        forall|name: Seq<char>| #[trigger]
            taken_names(before).contains(name) ==> taken_names(after).contains(name),
        short_names(after),
{
    assert forall|k: int| 0 <= k < requests.len() implies match #[trigger] requests[k] {
        Request::Uid(_) => true,
        Request::Binding(name) => encode_utf8(name).len() <= 0x8000_0000,
    } by {}
    assert(all_short(before, requests));
    let fresh = supplied(before, after).fresh;
    assert(fresh[i].name == symbols(after)[symbols(before).len() + i].0);
    if 0 <= j < requests.len() && j != i && requests[j] is Uid {
        assert(fresh[j].name == symbols(after)[symbols(before).len() + j].0);
        if i < j {
            assert(fresh[i].name != fresh[j].name);
        } else {
            assert(fresh[j].name != fresh[i].name);
        }
    }
}

/// A unique name has underscores in front, one at least, then what it is made from without the
/// underscores in front and the digits at the end, then perhaps digits.
pub proof fn unique_names_show_what_they_are_made_from(uid: Seq<char>, name: Seq<char>) -> (r: (
    nat,
    nat,
))
    requires
        is_uid(uid, name),
    ensures
        ({
            let stem = without_digits(without_underscores(name));
            let (front, end) = r;
            &&& front >= 1
            &&& end == front + stem.len() <= uid.len()
            &&& forall|i: int| 0 <= i < front ==> #[trigger] uid[i] == '_'
            &&& forall|i: int| 0 <= i < stem.len() ==> uid[front + i] == #[trigger] stem[i]
            &&& forall|i: int| end <= i < uid.len() ==> '0' <= #[trigger] uid[i] <= '9'
        }),
{
    let stem = without_digits(without_underscores(name));
    let (front, digits) = choose|underscores: Seq<char>, digits: Seq<char>|
        {
            &&& underscores.len() >= 1
            &&& forall|i: int| 0 <= i < underscores.len() ==> underscores[i] == '_'
            &&& forall|i: int| 0 <= i < digits.len() ==> is_digit(digits[i])
            &&& uid == #[trigger] (underscores + stem + digits)
        };
    assert forall|i: int| 0 <= i < stem.len() implies uid[front.len() + i] == #[trigger] stem[i] by {
        assert((front + stem)[front.len() + i] == stem[i]);
    }
    assert forall|i: int| front.len() + stem.len() <= i < uid.len() implies '0' <= #[trigger] uid[i]
        <= '9' by {
        assert(uid[i] == digits[i - front.len() - stem.len()]);
        assert(is_digit(digits[i - front.len() - stem.len()]));
    }
    (front.len(), front.len() + stem.len())
}

proof fn lemma_mentions(entries: Seq<Entry>, symbol_id: nat)
    ensures
        mentions(entries, symbol_id) == entries.filter(
            |e: Entry| e.symbol_id == symbol_id,
        ).len(),
    decreases entries.len(),
{
    reveal(Seq::filter);
    if entries.len() > 0 {
        lemma_mentions(entries.drop_last(), symbol_id);
    }
}

/// Each symbol lists as many references more as were made to it, and a new one no others.
pub proof fn symbols_list_their_references(
    before: TraverseCtx<'_, ()>,
    after: TraverseCtx<'_, ()>,
    requests: Seq<Request>,
    entries: Seq<Entry>,
    symbol_id: nat,
)
    requires
        issued(before, after, requests, entries),
        symbol_id < symbols(after).len(),
    ensures
        ({
            let made = entries.filter(|e: Entry| e.symbol_id == symbol_id).len();
            &&& symbol_id < symbols(before).len() ==> resolved(after)[symbol_id] == resolved(
                before,
            )[symbol_id] + made
            &&& symbol_id >= symbols(before).len() ==> resolved(after)[symbol_id] == made
        }),
{
    lemma_mentions(entries, symbol_id);
}

/// What a unique name is made from loses the underscores in front, all of them and nothing else.
pub proof fn underscores_are_cut(name: Seq<char>, i: int)
    ensures
        ({
            let rest = without_underscores(name);
            let cut = name.len() - rest.len();
            &&& 0 <= cut
            &&& 0 <= i < cut ==> name[i] == '_'
            &&& 0 <= i < rest.len() ==> rest[i] == name[cut + i]
            &&& rest.len() > 0 ==> rest[0] != '_'
        }),
    decreases name.len(),
{
    if name.len() > 0 && name[0] == '_' {
        underscores_are_cut(name.skip(1), i - 1);
        underscores_are_cut(name.skip(1), i);
    }
}

/// It loses the digits at the end, all of them and nothing else.
pub proof fn digits_are_cut(name: Seq<char>, i: int)
    ensures
        ({
            let rest = without_digits(name);
            &&& rest.len() <= name.len()
            &&& 0 <= i < rest.len() ==> rest[i] == name[i]
            &&& rest.len() <= i < name.len() ==> '0' <= name[i] <= '9'
            &&& rest.len() > 0 ==> !('0' <= rest.last() <= '9')
        }),
    decreases name.len(),
{
    if name.len() > 0 && is_digit(name.last()) {
        digits_are_cut(name.drop_last(), i);
    }
}

/// Whether the reference table takes this many rows more, and the scopes that the traversal is in
/// are in the tree.
pub open spec fn takes_references(ctx: TraverseCtx<'_, ()>, refs: nat) -> bool {
    &&& references(ctx).len() + refs <= 4_294_967_295
    &&& current_scope(ctx) < scopes(ctx).len()
    &&& hoist_scope(ctx) < scopes(ctx).len()
}

/// Whether the variable, if there is one, is in the symbol table and takes this many references
/// more.
pub open spec fn takes_mentions(
    ctx: TraverseCtx<'_, ()>,
    b: Option<BoundIdentifierView>,
    refs: nat,
) -> bool {
    b matches Some(b) ==> b.symbol_id < symbols(ctx).len() && resolved(ctx)[b.symbol_id] + refs
        <= 268_435_456
}

/// A class can be entered where there is room for two variables for each member and one more, and
/// for one reference for each member and two more.
pub proof fn room_for_entering(class: ClassView, ctx: TraverseCtx<'_, ()>)
    ensures
        can_enter(class, ctx) <==> {
            &&& symbols(ctx).len() + 2 * class.body.len() + 1 <= 67_108_864
            &&& takes_references(ctx, class.body.len() + 2)
        },
{
}

/// A class can be left where there is room for one scope and seven references, and for a class
/// expression also for one variable and one more reference.
pub proof fn room_for_leaving(t: TransformView, class: ClassView, ctx: TraverseCtx<'_, ()>)
    ensures
        can_exit(t, class, ctx) <==> {
            let refs = if class.class_type == ClassType::ClassExpression {
                8nat
            } else {
                7
            };
            &&& class.class_type == ClassType::ClassExpression ==> symbols(ctx).len() + 1
                <= 67_108_864
            &&& symbols(ctx).len() <= 4_294_967_295
            &&& takes_references(ctx, refs)
            &&& takes_mentions(ctx, t.state.init_proto, refs)
            &&& takes_mentions(ctx, t.state.init_static, refs)
            &&& takes_mentions(ctx, t.state.super_class, refs)
            &&& scopes(ctx).len() < 4_294_967_295
        },
{
}

/// A class expression can be wrapped where there is room for one reference, and that to the
/// variable of the class.
pub proof fn room_for_wrapping(t: TransformView, ctx: TraverseCtx<'_, ()>)
    ensures
        can_wrap(t, ctx) <==> {
            &&& symbols(ctx).len() <= 4_294_967_295
            &&& takes_references(ctx, 1)
            &&& takes_mentions(ctx, t.state.expr_wrap_class_ref, 1)
        },
{
}

/// A class declaration can be replaced where there is room for one scope, for two variables for each
/// member and two more, and for one reference for each member and eleven more, and where the name of
/// the class is not too long.
pub proof fn room_for_replacing(t: TransformView, class: ClassView, ctx: TraverseCtx<'_, ()>)
    ensures
        can_replace(t, class, ctx) <==> {
            let refs = class.body.len() + 11;
            &&& symbols(ctx).len() + 2 * class.body.len() + 2 <= 67_108_864
            &&& takes_references(ctx, refs)
            &&& takes_mentions(ctx, t.state.init_proto, refs)
            &&& takes_mentions(ctx, t.state.init_static, refs)
            &&& takes_mentions(ctx, t.state.super_class, refs)
            &&& scopes(ctx).len() < 4_294_967_295
            &&& class.name matches Some(name) ==> encode_utf8(name).len() <= 4_294_967_295
        },
{
}

/// Room for variables and references, in numbers.
pub proof fn room_in_the_tables(ctx: TraverseCtx<'_, ()>, n: nat, refs: nat)
    ensures
        room(ctx, n as int, refs as int) <==> {
            &&& symbols(ctx).len() <= 4_294_967_295
            &&& n > 0 ==> symbols(ctx).len() + n <= 67_108_864
            &&& takes_references(ctx, refs)
        },
{
}

/// How short names are, in numbers.
pub proof fn short_names_in_bytes(ctx: TraverseCtx<'_, ()>)
    ensures
        short_names(ctx) <==> forall|name: Seq<char>| #[trigger]
            taken_names(ctx).contains(name) ==> encode_utf8(name).len() <= 2_147_483_648 + 16
                * symbols(ctx).len(),
{
}

} // verus!
