//! The traversal context: the symbol table, the reference table and the scope tree of the program
//! at hand.
//!
//! The context is `oxc_traverse`'s. Its tables are modelled by the functions without a body below,
//! and each of its methods that the transform calls has a wrapper that says what the method does
//! to those tables. The wrappers are believed, not proved.
use crate::ast::BoundIdentifier;
use crate::model::BoundIdentifierView;
use oxc_allocator::{Allocator, Dummy};
use oxc_ast::ast::Program;
use oxc_semantic::{
    ReferenceFlags, ScopeFlags, ScopeId, SemanticBuilder, SymbolFlags, SymbolId,
};
use oxc_traverse::TraverseCtx;
use vstd::prelude::*;
use vstd::utf8::encode_utf8;

verus! {

/// `oxc_traverse::TraverseCtx`, whose inside is not looked into.
#[verifier::external_type_specification]
#[verifier::external_body]
#[verifier::reject_recursive_types(State)]
pub struct ExTraverseCtx<'a, State>(TraverseCtx<'a, State>);

/// The symbol table: the name, the scope and the flags of each symbol, by its number.
pub uninterp spec fn symbols(ctx: TraverseCtx<'_, ()>) -> Seq<(Seq<char>, nat, u32)>;

/// The reference table: the symbol, if one is known, the scope and the flags of each reference, by
/// its number.
pub uninterp spec fn references(ctx: TraverseCtx<'_, ()>) -> Seq<(Option<nat>, nat, u8)>;

/// How many references each symbol lists as its own, by the number of the symbol.
pub uninterp spec fn resolved(ctx: TraverseCtx<'_, ()>) -> Map<nat, nat>;

/// The scope tree: the parent and the flags of each scope, by its number.
pub uninterp spec fn scopes(ctx: TraverseCtx<'_, ()>) -> Seq<(Option<nat>, u16)>;

/// The tables of the scopes: the symbol that a name is bound to in a scope, by the number of the
/// scope and the name.
pub uninterp spec fn bindings(ctx: TraverseCtx<'_, ()>) -> Map<(nat, Seq<char>), nat>;

/// The scope that the traversal is in.
pub uninterp spec fn current_scope(ctx: TraverseCtx<'_, ()>) -> nat;

/// The scope that a `var` at this point of the traversal is hoisted to.
pub uninterp spec fn hoist_scope(ctx: TraverseCtx<'_, ()>) -> nat;

/// The names that the generator of unique names keeps clear of: those that it found in the
/// program when it was first asked, or would find if it was not asked yet, and those that it has
/// handed out.
pub uninterp spec fn taken_names(ctx: TraverseCtx<'_, ()>) -> Set<Seq<char>>;

/// The flag of a symbol that is a `var`.
pub const FUNCTION_SCOPED_VARIABLE: u32 = 1;

/// The flag that a scope has in strict mode code, and hands on to the scopes in it.
pub const STRICT_MODE: u16 = 1;

/// The flags of the scope of a constructor.
pub const CONSTRUCTOR_SCOPE: u16 = 68;

/// The flag of a reference that reads its variable.
pub const READ: u8 = 1;

/// The flag of a reference that writes its variable.
pub const WRITE: u8 = 2;

/// How many symbols the table takes. Its lists are arena vectors, which double when they are full
/// and panic when they come to more bytes than fit a `u32`, or an `isize` where that is smaller.
pub const MAX_SYMBOLS: usize = 0x0400_0000;

/// How many references a symbol can list as its own, in an arena vector too.
pub const MAX_RESOLVED: usize = 0x1000_0000;

/// How many bytes a name can have and still be called short.
pub const SHORT_NAME: usize = 0x8000_0000;

pub open spec fn is_digit(c: char) -> bool {
    '0' <= c <= '9'
}

/// `name` without its leading underscores.
pub open spec fn without_underscores(name: Seq<char>) -> Seq<char>
    decreases name.len(),
{
    if name.len() > 0 && name[0] == '_' {
        without_underscores(name.skip(1))
    } else {
        name
    }
}

/// `name` without its trailing digits.
pub open spec fn without_digits(name: Seq<char>) -> Seq<char>
    decreases name.len(),
{
    if name.len() > 0 && is_digit(name.last()) {
        without_digits(name.drop_last())
    } else {
        name
    }
}

/// Whether `uid` is a unique name made from `name`: one or more underscores, then `name` without
/// its own leading underscores and trailing digits, then perhaps digits.
pub open spec fn is_uid(uid: Seq<char>, name: Seq<char>) -> bool {
    exists|underscores: Seq<char>, digits: Seq<char>|
        {
            &&& underscores.len() >= 1
            &&& forall|i: int| 0 <= i < underscores.len() ==> underscores[i] == '_'
            &&& forall|i: int| 0 <= i < digits.len() ==> is_digit(digits[i])
            &&& uid == #[trigger] (underscores + without_digits(without_underscores(name)) + digits)
        }
}

/// Whether the names that the generator keeps clear of are short. Each symbol adds a little to what
/// that means, as a unique name is a little longer than the names that it keeps clear of.
pub open spec fn short_names(ctx: TraverseCtx<'_, ()>) -> bool {
    forall|name: Seq<char>| #[trigger]
        taken_names(ctx).contains(name) ==> encode_utf8(name).len() <= SHORT_NAME + 16 * symbols(
            ctx,
        ).len()
}

/// `TraverseCtx::generate_uid_in_current_hoist_scope` appends a symbol for a `var` to the table,
/// in the scope that such a variable is hoisted to, with no reference of its own. In that scope it
/// binds the name to the symbol, whatever the name was bound to before. The call panics when one of
/// the lists of the symbol table cannot grow, or when there is no such scope. Where the names that
/// the generator keeps clear of are short, the new name is made from `name`, is none of them, joins
/// them, and leaves them short. A name that came near `u32::MAX` bytes would be cut, and of that
/// nothing is said.
#[verifier::external_body]
pub(crate) fn generate_uid_in_current_hoist_scope(
    ctx: &mut TraverseCtx<'_, ()>,
    name: &str,
) -> (uid: BoundIdentifier)
    requires
        symbols(*old(ctx)).len() < MAX_SYMBOLS,
        hoist_scope(*old(ctx)) < scopes(*old(ctx)).len(),
        name@.len() <= 0x1000_0000,
    ensures
        uid.symbol_id == symbols(*old(ctx)).len(),
        symbols(*final(ctx)) == symbols(*old(ctx)).push(
            (uid.name@, hoist_scope(*old(ctx)), FUNCTION_SCOPED_VARIABLE),
        ),
        short_names(*old(ctx)) ==> {
            &&& is_uid(uid.name@, name@)
            &&& !taken_names(*old(ctx)).contains(uid.name@)
            &&& taken_names(*final(ctx)) == taken_names(*old(ctx)).insert(uid.name@)
            &&& short_names(*final(ctx))
        },
        references(*final(ctx)) == references(*old(ctx)),
        resolved(*final(ctx)) == resolved(*old(ctx)).insert(symbols(*old(ctx)).len(), 0),
        scopes(*final(ctx)) == scopes(*old(ctx)),
        bindings(*final(ctx)) == bindings(*old(ctx)).insert(
            (hoist_scope(*old(ctx)), uid.name@),
            symbols(*old(ctx)).len(),
        ),
        current_scope(*final(ctx)) == current_scope(*old(ctx)),
        hoist_scope(*final(ctx)) == hoist_scope(*old(ctx)),
{
    let uid = ctx.generate_uid_in_current_hoist_scope(name);
    BoundIdentifier { name: uid.name.into_string(), symbol_id: uid.symbol_id.index() }
}

/// `TraverseCtx::generate_binding` appends a symbol with this name, scope and flags to the table,
/// with no reference of its own, and binds the name to it in that scope, whatever it was bound to
/// before. The generator of unique names forgets nothing by it, and learns of
/// no other name. The call panics when one of the lists of the symbol table cannot grow, or when
/// there is no such scope; a name of more than `u32::MAX` bytes would be cut.
#[verifier::external_body]
pub(crate) fn generate_binding(
    ctx: &mut TraverseCtx<'_, ()>,
    name: &str,
    scope_id: usize,
    flags: u32,
) -> (binding: BoundIdentifier)
    requires
        symbols(*old(ctx)).len() < MAX_SYMBOLS,
        scope_id < scopes(*old(ctx)).len(),
        scope_id < u32::MAX,
        encode_utf8(name@).len() <= u32::MAX,
    ensures
        binding.symbol_id == symbols(*old(ctx)).len(),
        binding.name@ == name@,
        symbols(*final(ctx)) == symbols(*old(ctx)).push((name@, scope_id as nat, flags)),
        taken_names(*old(ctx)).subset_of(taken_names(*final(ctx))),
        taken_names(*final(ctx)).subset_of(taken_names(*old(ctx)).insert(name@)),
        references(*final(ctx)) == references(*old(ctx)),
        resolved(*final(ctx)) == resolved(*old(ctx)).insert(symbols(*old(ctx)).len(), 0),
        scopes(*final(ctx)) == scopes(*old(ctx)),
        bindings(*final(ctx)) == bindings(*old(ctx)).insert(
            (scope_id as nat, name@),
            symbols(*old(ctx)).len(),
        ),
        current_scope(*final(ctx)) == current_scope(*old(ctx)),
        hoist_scope(*final(ctx)) == hoist_scope(*old(ctx)),
{
    let ident = ctx.ast.ident(name);
    let flags = SymbolFlags::from_bits_retain(flags);
    let binding = ctx.generate_binding(ident, ScopeId::from_usize(scope_id), flags);
    BoundIdentifier { name: binding.name.into_string(), symbol_id: binding.symbol_id.index() }
}

/// `TraverseCtx::create_bound_reference` appends a reference to the table, from the current scope
/// to this symbol and with these flags, and the symbol lists it as its own. The call panics when
/// the reference table or the list of the symbol cannot grow, or when there is no such symbol.
#[verifier::external_body]
pub(crate) fn create_bound_reference(
    ctx: &mut TraverseCtx<'_, ()>,
    symbol_id: usize,
    flags: u8,
) -> (reference_id: usize)
    requires
        symbol_id < symbols(*old(ctx)).len(),
        symbol_id < u32::MAX,
        resolved(*old(ctx))[symbol_id as nat] < MAX_RESOLVED,
        references(*old(ctx)).len() < u32::MAX,
    ensures
        reference_id == references(*old(ctx)).len(),
        references(*final(ctx)) == references(*old(ctx)).push(
            (Some(symbol_id as nat), current_scope(*old(ctx)), flags),
        ),
        resolved(*final(ctx)) == resolved(*old(ctx)).insert(
            symbol_id as nat,
            resolved(*old(ctx))[symbol_id as nat] + 1,
        ),
        symbols(*final(ctx)) == symbols(*old(ctx)),
        taken_names(*final(ctx)) == taken_names(*old(ctx)),
        scopes(*final(ctx)) == scopes(*old(ctx)),
        bindings(*final(ctx)) == bindings(*old(ctx)),
        current_scope(*final(ctx)) == current_scope(*old(ctx)),
        hoist_scope(*final(ctx)) == hoist_scope(*old(ctx)),
{
    let flags = ReferenceFlags::from_bits_retain(flags);
    ctx.create_bound_reference(SymbolId::from_usize(symbol_id), flags).index()
}

/// `TraverseCtx::create_child_scope_of_current` appends a scope to the tree, as a child of the
/// current one. It has these flags, is in strict mode where the current one is, and binds no name.
/// The call panics when the scope tree is full, or when there is no current scope in it.
#[verifier::external_body]
pub(crate) fn create_child_scope_of_current(ctx: &mut TraverseCtx<'_, ()>, flags: u16) -> (scope_id:
    usize)
    requires
        scopes(*old(ctx)).len() < u32::MAX,
        current_scope(*old(ctx)) < scopes(*old(ctx)).len(),
    ensures
        scope_id == scopes(*old(ctx)).len(),
        scopes(*final(ctx)) == scopes(*old(ctx)).push(
            (
                Some(current_scope(*old(ctx))),
                flags | (scopes(*old(ctx))[current_scope(*old(ctx)) as int].1 & STRICT_MODE),
            ),
        ),
        symbols(*final(ctx)) == symbols(*old(ctx)),
        references(*final(ctx)) == references(*old(ctx)),
        resolved(*final(ctx)) == resolved(*old(ctx)),
        bindings(*final(ctx)) == bindings(*old(ctx)),
        taken_names(*final(ctx)) == taken_names(*old(ctx)),
        current_scope(*final(ctx)) == current_scope(*old(ctx)),
        hoist_scope(*final(ctx)) == hoist_scope(*old(ctx)),
{
    ctx.create_child_scope_of_current(ScopeFlags::from_bits_retain(flags)).index()
}

/// `TraverseCtx::current_scope_id` is the number of the current scope, which fits a `u32`.
#[verifier::external_body]
pub(crate) fn current_scope_id(ctx: &TraverseCtx<'_, ()>) -> (scope_id: usize)
    ensures
        scope_id == current_scope(*ctx),
        scope_id < u32::MAX,
{
    ctx.current_scope_id().index()
}

/// `TraverseCtx::current_hoist_scope_id` is the number of the scope that a `var` is hoisted to,
/// which fits a `u32`.
#[verifier::external_body]
pub(crate) fn current_hoist_scope_id(ctx: &TraverseCtx<'_, ()>) -> (scope_id: usize)
    ensures
        scope_id == hoist_scope(*ctx),
        scope_id < u32::MAX,
{
    ctx.current_hoist_scope_id().index()
}

/// `Scoping::symbols_len` is the length of the symbol table.
#[verifier::external_body]
pub(crate) fn symbols_len(ctx: &TraverseCtx<'_, ()>) -> (len: usize)
    ensures
        len == symbols(*ctx).len(),
{
    ctx.scoping().symbols_len()
}

/// `Scoping::scopes_len` is the number of scopes.
#[verifier::external_body]
pub(crate) fn scopes_len(ctx: &TraverseCtx<'_, ()>) -> (len: usize)
    ensures
        len == scopes(*ctx).len(),
{
    ctx.scoping().scopes_len()
}

/// `Semantic::stats` counts the references in the table. It is asked of an empty program to which
/// the tables of this one are lent, and which gives them back as they were.
#[verifier::external_body]
pub(crate) fn references_len(ctx: &mut TraverseCtx<'_, ()>) -> (len: usize)
    ensures
        len == references(*old(ctx)).len(),
        *final(ctx) == *old(ctx),
{
    let allocator = Allocator::default();
    let program: Program<'_> = Dummy::dummy(&allocator);
    let mut semantic = SemanticBuilder::new().build(&program).semantic;
    std::mem::swap(semantic.scoping_mut(), ctx.scoping_mut());
    let len = semantic.stats().references as usize;
    std::mem::swap(semantic.scoping_mut(), ctx.scoping_mut());
    len
}

/// `Scoping::get_resolved_reference_ids` is the list of the references of a symbol. The call panics
/// when there is no such symbol.
#[verifier::external_body]
pub(crate) fn resolved_len(ctx: &TraverseCtx<'_, ()>, symbol_id: usize) -> (len: usize)
    requires
        symbol_id < symbols(*ctx).len(),
        symbol_id < u32::MAX,
    ensures
        len == resolved(*ctx)[symbol_id as nat],
{
    ctx.scoping().get_resolved_reference_ids(SymbolId::from_usize(symbol_id)).len()
}

/// Whether the tables of the context can take `n` more symbols and `refs` more references, and hold
/// the scopes that the traversal is in.
pub open spec fn room(ctx: TraverseCtx<'_, ()>, n: int, refs: int) -> bool {
    &&& symbols(ctx).len() <= u32::MAX
    &&& n > 0 ==> symbols(ctx).len() + n <= MAX_SYMBOLS
    &&& references(ctx).len() + refs <= u32::MAX
    &&& current_scope(ctx) < scopes(ctx).len()
    &&& hoist_scope(ctx) < scopes(ctx).len()
}

/// Asks the context whether it has [`room`].
pub fn has_room(ctx: &mut TraverseCtx<'_, ()>, n: usize, refs: usize) -> (r: bool)
    ensures
        r == room(*old(ctx), n as int, refs as int),
        *final(ctx) == *old(ctx),
{
    let max: usize = u32::MAX as usize;
    let references: usize = references_len(ctx);
    let symbols: usize = symbols_len(ctx);
    let scopes: usize = scopes_len(ctx);
    symbols <= max && (n == 0 || (symbols <= MAX_SYMBOLS && n <= MAX_SYMBOLS - symbols))
        && references <= max && refs <= max - references && current_scope_id(ctx) < scopes
        && current_hoist_scope_id(ctx) < scopes
}

/// Whether the scope tree can take one more scope.
pub open spec fn scope_room(ctx: TraverseCtx<'_, ()>) -> bool {
    scopes(ctx).len() < u32::MAX
}

/// Asks the context whether it has [`scope_room`].
pub fn has_scope_room(ctx: &TraverseCtx<'_, ()>) -> (r: bool)
    ensures
        r == scope_room(*ctx),
{
    scopes_len(ctx) < u32::MAX as usize
}

/// Whether the context knows the variable, and its list can take `refs` more references.
pub open spec fn can_refer(
    ctx: TraverseCtx<'_, ()>,
    binding: BoundIdentifierView,
    refs: int,
) -> bool {
    &&& binding.symbol_id < symbols(ctx).len()
    &&& resolved(ctx)[binding.symbol_id] + refs <= MAX_RESOLVED
}

/// [`can_refer`], where there is a variable.
pub open spec fn can_refer_to(
    ctx: TraverseCtx<'_, ()>,
    binding: Option<BoundIdentifierView>,
    refs: int,
) -> bool {
    binding is Some ==> can_refer(ctx, binding->0, refs)
}

/// Asks the context whether it [`can_refer_to`] a variable.
pub(crate) fn may_refer_to(
    ctx: &TraverseCtx<'_, ()>,
    binding: &Option<BoundIdentifier>,
    refs: usize,
) -> (r: bool)
    requires
        symbols(*ctx).len() <= u32::MAX,
    ensures
        r == can_refer_to(
            *ctx,
            match *binding {
                Some(b) => Some(b@),
                None => None,
            },
            refs as int,
        ),
{
    match binding {
        Some(b) => {
            if b.symbol_id >= symbols_len(ctx) {
                return false;
            }
            let resolved: usize = resolved_len(ctx, b.symbol_id);
            resolved <= MAX_RESOLVED && refs <= MAX_RESOLVED - resolved
        },
        None => true,
    }
}

/// What is asked of the context for a new variable.
pub enum Request {
    /// A unique name, made from this one.
    Uid(Seq<char>),
    /// This very name.
    Binding(Seq<char>),
}

/// A reference that is made to a variable.
pub struct Entry {
    pub symbol_id: nat,
    pub flags: u8,
}

pub open spec fn read_entry(binding: BoundIdentifierView) -> Entry {
    Entry { symbol_id: binding.symbol_id, flags: READ }
}

pub open spec fn write_entry(binding: BoundIdentifierView) -> Entry {
    Entry { symbol_id: binding.symbol_id, flags: WRITE }
}

/// A read of the variable, where there is one.
pub open spec fn read_entries(binding: Option<BoundIdentifierView>) -> Seq<Entry> {
    match binding {
        Some(b) => seq![read_entry(b)],
        None => Seq::empty(),
    }
}

/// A write of the variable, where there is one.
pub open spec fn write_entries(binding: Option<BoundIdentifierView>) -> Seq<Entry> {
    match binding {
        Some(b) => seq![write_entry(b)],
        None => Seq::empty(),
    }
}

/// How many of the references are to this symbol.
pub open spec fn mentions(entries: Seq<Entry>, symbol_id: nat) -> nat
    decreases entries.len(),
{
    if entries.len() == 0 {
        0
    } else {
        mentions(entries.drop_last(), symbol_id) + if entries.last().symbol_id == symbol_id {
            1nat
        } else {
            0
        }
    }
}

/// The variables that the context has made between two moments, in order.
pub open spec fn handed_out(before: TraverseCtx<'_, ()>, after: TraverseCtx<'_, ()>) -> Seq<
    BoundIdentifierView,
> {
    Seq::new(
        (symbols(after).len() - symbols(before).len()) as nat,
        |i: int|
            BoundIdentifierView {
                name: symbols(after)[symbols(before).len() + i].0,
                symbol_id: (symbols(before).len() + i) as nat,
            },
    )
}

/// The tables of the scopes with these variables bound in one scope, each by its name. Where two
/// have the same name, it is bound to the later one.
pub open spec fn with_bindings(
    tables: Map<(nat, Seq<char>), nat>,
    scope_id: nat,
    variables: Seq<BoundIdentifierView>,
) -> Map<(nat, Seq<char>), nat>
    decreases variables.len(),
{
    if variables.len() == 0 {
        tables
    } else {
        with_bindings(tables, scope_id, variables.drop_last()).insert(
            (scope_id, variables.last().name),
            variables.last().symbol_id,
        )
    }
}

/// What the context supplies: variables, and numbers for references, which are consecutive.
pub struct Supply {
    pub fresh: Seq<BoundIdentifierView>,
    /// The number of the first reference.
    pub base: nat,
}

/// What the context has supplied between two moments.
pub open spec fn supplied(before: TraverseCtx<'_, ()>, after: TraverseCtx<'_, ()>) -> Supply {
    Supply { fresh: handed_out(before, after), base: references(before).len() }
}

/// Whether all names are short: those that are taken, and those that are asked for as they are.
pub open spec fn all_short(ctx: TraverseCtx<'_, ()>, requests: Seq<Request>) -> bool {
    &&& short_names(ctx)
    &&& forall|i: int|
        0 <= i < requests.len() ==> match #[trigger] requests[i] {
            Request::Uid(_) => true,
            Request::Binding(name) => encode_utf8(name).len() <= SHORT_NAME,
        }
}

/// Whether exactly these variables were asked for between two moments, and made. Each is a `var` in
/// the hoist scope, and is bound there under its name. That name is the one asked for or, where all
/// names are short, a unique name made from it: one that was not taken before, and no two of them
/// are the same.
pub open spec fn named(
    before: TraverseCtx<'_, ()>,
    after: TraverseCtx<'_, ()>,
    requests: Seq<Request>,
) -> bool {
    let fresh = handed_out(before, after);
    let base = symbols(before).len();
    &&& symbols(after).len() == base + requests.len()
    &&& forall|i: int| 0 <= i < base ==> symbols(after)[i] == symbols(before)[i]
    &&& forall|i: int|
        base <= i < symbols(after).len() ==> {
            &&& (#[trigger] symbols(after)[i]).1 == hoist_scope(before)
            &&& symbols(after)[i].2 == FUNCTION_SCOPED_VARIABLE
        }
    &&& forall|i: int|
        0 <= i < requests.len() ==> match #[trigger] requests[i] {
            Request::Uid(_) => true,
            Request::Binding(name) => fresh[i].name == name,
        }
    &&& bindings(after) == with_bindings(bindings(before), hoist_scope(before), fresh)
    &&& all_short(before, requests) ==> {
        &&& forall|i: int|
            0 <= i < requests.len() ==> match #[trigger] requests[i] {
                Request::Uid(name) => {
                    &&& is_uid(fresh[i].name, name)
                    &&& !taken_names(before).contains(fresh[i].name)
                    &&& taken_names(after).contains(fresh[i].name)
                },
                Request::Binding(_) => true,
            }
        &&& forall|i: int, j: int|
            0 <= i < j < requests.len() && (#[trigger] requests[i]) is Uid && (
            #[trigger] requests[j]) is Uid ==> fresh[i].name != fresh[j].name
        &&& taken_names(before).subset_of(taken_names(after))
        &&& short_names(after)
    }
    &&& current_scope(after) == current_scope(before)
    &&& hoist_scope(after) == hoist_scope(before)
}

/// Whether exactly these references were made between two moments, from the current scope.
pub open spec fn noted(
    before: TraverseCtx<'_, ()>,
    after: TraverseCtx<'_, ()>,
    entries: Seq<Entry>,
) -> bool {
    &&& references(after) == references(before) + entries.map_values(
        |e: Entry| (Some(e.symbol_id), current_scope(before), e.flags),
    )
    &&& forall|i: int|
        0 <= i < entries.len() ==> (#[trigger] entries[i]).symbol_id < symbols(after).len()
    &&& forall|s: nat|
        s < symbols(after).len() ==> #[trigger] resolved(after)[s] == if s < symbols(before).len() {
            resolved(before)[s]
        } else {
            0
        } + mentions(entries, s)
}

/// Whether exactly these variables and references were made between two moments.
pub open spec fn issued(
    before: TraverseCtx<'_, ()>,
    after: TraverseCtx<'_, ()>,
    requests: Seq<Request>,
    entries: Seq<Entry>,
) -> bool {
    named(before, after, requests) && noted(before, after, entries)
}

/// No request leaves the context as it was.
pub proof fn lemma_issued_nothing(ctx: TraverseCtx<'_, ()>)
    ensures
        issued(ctx, ctx, Seq::empty(), Seq::empty()),
        handed_out(ctx, ctx) == Seq::<BoundIdentifierView>::empty(),
{
    assert(handed_out(ctx, ctx) =~= Seq::empty());
    assert(references(ctx) + Seq::<Entry>::empty().map_values(
        |e: Entry| (Some(e.symbol_id), current_scope(ctx), e.flags),
    ) =~= references(ctx));
}

proof fn lemma_mentions_append(first: Seq<Entry>, second: Seq<Entry>, s: nat)
    ensures
        mentions(first + second, s) == mentions(first, s) + mentions(second, s),
    decreases second.len(),
{
    if second.len() == 0 {
        assert(first + second =~= first);
    } else {
        assert((first + second).drop_last() =~= first + second.drop_last());
        lemma_mentions_append(first, second.drop_last(), s);
    }
}

proof fn lemma_mentions_bound(entries: Seq<Entry>, s: nat)
    ensures
        mentions(entries, s) <= entries.len(),
    decreases entries.len(),
{
    if entries.len() > 0 {
        lemma_mentions_bound(entries.drop_last(), s);
    }
}

proof fn lemma_mentions_none(entries: Seq<Entry>, s: nat)
    requires
        forall|i: int| 0 <= i < entries.len() ==> (#[trigger] entries[i]).symbol_id < s,
    ensures
        mentions(entries, s) == 0,
    decreases entries.len(),
{
    if entries.len() > 0 {
        lemma_mentions_none(entries.drop_last(), s);
        assert(entries[entries.len() - 1].symbol_id < s);
    }
}

proof fn lemma_with_bindings_append(
    tables: Map<(nat, Seq<char>), nat>,
    scope_id: nat,
    first: Seq<BoundIdentifierView>,
    second: Seq<BoundIdentifierView>,
)
    ensures
        with_bindings(tables, scope_id, first + second) == with_bindings(
            with_bindings(tables, scope_id, first),
            scope_id,
            second,
        ),
    decreases second.len(),
{
    if second.len() == 0 {
        assert(first + second =~= first);
    } else {
        assert((first + second).drop_last() =~= first + second.drop_last());
        lemma_with_bindings_append(tables, scope_id, first, second.drop_last());
    }
}

/// One variable is bound by its name.
proof fn lemma_with_one_binding(
    tables: Map<(nat, Seq<char>), nat>,
    scope_id: nat,
    variable: BoundIdentifierView,
)
    ensures
        with_bindings(tables, scope_id, seq![variable]) == tables.insert(
            (scope_id, variable.name),
            variable.symbol_id,
        ),
{
    reveal_with_fuel(with_bindings, 2);
    assert(seq![variable].drop_last() =~= Seq::empty());
}

proof fn lemma_named_append(
    a: TraverseCtx<'_, ()>,
    b: TraverseCtx<'_, ()>,
    c: TraverseCtx<'_, ()>,
    first: Seq<Request>,
    second: Seq<Request>,
)
    requires
        named(a, b, first),
        named(b, c, second),
    ensures
        named(a, c, first + second),
        handed_out(a, c) == handed_out(a, b) + handed_out(b, c),
{
    let fresh = handed_out(a, c);
    let requests = first + second;
    assert(fresh =~= handed_out(a, b) + handed_out(b, c));
    lemma_with_bindings_append(
        bindings(a),
        hoist_scope(a),
        handed_out(a, b),
        handed_out(b, c),
    );
    assert forall|i: int| 0 <= i < symbols(a).len() implies symbols(c)[i] == symbols(a)[i] by {
        assert(symbols(b)[i] == symbols(a)[i]);
    }
    assert forall|i: int| symbols(a).len() <= i < symbols(c).len() implies {
        &&& (#[trigger] symbols(c)[i]).1 == hoist_scope(a)
        &&& symbols(c)[i].2 == FUNCTION_SCOPED_VARIABLE
    } by {
        if i < symbols(b).len() {
            assert(symbols(c)[i] == symbols(b)[i]);
        }
    }
    assert forall|i: int| 0 <= i < requests.len() implies match #[trigger] requests[i] {
        Request::Uid(_) => true,
        Request::Binding(name) => fresh[i].name == name,
    } by {
        if i < first.len() {
            assert(requests[i] == first[i]);
            assert(fresh[i] == handed_out(a, b)[i]);
        } else {
            assert(requests[i] == second[i - first.len()]);
            assert(fresh[i] == handed_out(b, c)[i - first.len()]);
        }
    }
    if all_short(a, requests) {
        assert forall|i: int| 0 <= i < first.len() implies match #[trigger] first[i] {
            Request::Uid(_) => true,
            Request::Binding(name) => encode_utf8(name).len() <= SHORT_NAME,
        } by {
            assert(requests[i] == first[i]);
        }
        assert forall|i: int| 0 <= i < second.len() implies match #[trigger] second[i] {
            Request::Uid(_) => true,
            Request::Binding(name) => encode_utf8(name).len() <= SHORT_NAME,
        } by {
            assert(requests[i + first.len()] == second[i]);
        }
        assert(all_short(a, first));
        assert(all_short(b, second));
        assert forall|i: int| 0 <= i < requests.len() implies match #[trigger] requests[i] {
            Request::Uid(name) => {
                &&& is_uid(fresh[i].name, name)
                &&& !taken_names(a).contains(fresh[i].name)
                &&& taken_names(c).contains(fresh[i].name)
            },
            Request::Binding(_) => true,
        } by {
            if i < first.len() {
                assert(requests[i] == first[i]);
                assert(fresh[i] == handed_out(a, b)[i]);
            } else {
                assert(requests[i] == second[i - first.len()]);
                assert(fresh[i] == handed_out(b, c)[i - first.len()]);
            }
        }
        assert forall|i: int, j: int|
            0 <= i < j < requests.len() && (#[trigger] requests[i]) is Uid && (
            #[trigger] requests[j]) is Uid implies fresh[i].name != fresh[j].name by {
            if j < first.len() {
                assert(requests[i] == first[i] && requests[j] == first[j]);
            } else if i < first.len() {
                assert(requests[i] == first[i] && requests[j] == second[j - first.len()]);
                assert(fresh[i] == handed_out(a, b)[i]);
                assert(fresh[j] == handed_out(b, c)[j - first.len()]);
            } else {
                assert(requests[i] == second[i - first.len()]);
                assert(requests[j] == second[j - first.len()]);
            }
        }
    }
}

proof fn lemma_noted_append(
    a: TraverseCtx<'_, ()>,
    b: TraverseCtx<'_, ()>,
    c: TraverseCtx<'_, ()>,
    first: Seq<Entry>,
    second: Seq<Entry>,
)
    requires
        noted(a, b, first),
        noted(b, c, second),
        symbols(a).len() <= symbols(b).len() <= symbols(c).len(),
        current_scope(b) == current_scope(a),
    ensures
        noted(a, c, first + second),
{
    let entries = first + second;
    let row = |e: Entry| (Some(e.symbol_id), current_scope(a), e.flags);
    assert(entries.map_values(row) =~= first.map_values(row) + second.map_values(row));
    assert(references(c) =~= references(a) + entries.map_values(row));
    assert forall|i: int| 0 <= i < entries.len() implies (#[trigger] entries[i]).symbol_id
        < symbols(c).len() by {
        if i < first.len() {
            assert(entries[i] == first[i]);
        } else {
            assert(entries[i] == second[i - first.len()]);
        }
    }
    assert forall|s: nat| s < symbols(c).len() implies #[trigger] resolved(c)[s] == if s
        < symbols(a).len() {
        resolved(a)[s]
    } else {
        0
    } + mentions(entries, s) by {
        lemma_mentions_append(first, second, s);
        if s < symbols(b).len() {
            assert(resolved(b)[s] == if s < symbols(a).len() {
                resolved(a)[s]
            } else {
                0
            } + mentions(first, s));
        } else {
            lemma_mentions_none(first, s);
        }
    }
}

/// What was issued one after the other was issued.
pub proof fn lemma_issued_append(
    a: TraverseCtx<'_, ()>,
    b: TraverseCtx<'_, ()>,
    c: TraverseCtx<'_, ()>,
    first: Seq<Request>,
    second: Seq<Request>,
    first_entries: Seq<Entry>,
    second_entries: Seq<Entry>,
)
    requires
        issued(a, b, first, first_entries),
        issued(b, c, second, second_entries),
    ensures
        issued(a, c, first + second, first_entries + second_entries),
        handed_out(a, c) == handed_out(a, b) + handed_out(b, c),
{
    lemma_named_append(a, b, c, first, second);
    lemma_noted_append(a, b, c, first_entries, second_entries);
}

/// References that follow what was issued add to it.
pub proof fn lemma_issued_more(
    a: TraverseCtx<'_, ()>,
    b: TraverseCtx<'_, ()>,
    c: TraverseCtx<'_, ()>,
    requests: Seq<Request>,
    entries: Seq<Entry>,
    more: Seq<Entry>,
)
    requires
        issued(a, b, requests, entries),
        issued(b, c, Seq::empty(), more),
    ensures
        issued(a, c, requests, entries + more),
        handed_out(a, c) == handed_out(a, b),
        references(b).len() == references(a).len() + entries.len(),
{
    lemma_issued_append(a, b, c, requests, Seq::empty(), entries, more);
    assert(requests + Seq::<Request>::empty() =~= requests);
    assert(handed_out(a, b) + handed_out(b, c) =~= handed_out(a, b));
}

/// Each reference that is made leaves room for one less to a variable.
pub proof fn lemma_can_refer(
    a: TraverseCtx<'_, ()>,
    b: TraverseCtx<'_, ()>,
    requests: Seq<Request>,
    entries: Seq<Entry>,
    binding: Option<BoundIdentifierView>,
    refs: int,
)
    requires
        issued(a, b, requests, entries),
        can_refer_to(a, binding, refs),
    ensures
        can_refer_to(b, binding, refs - entries.len()),
{
    if let Some(binding) = binding {
        lemma_mentions_bound(entries, binding.symbol_id);
        assert(resolved(b)[binding.symbol_id] == resolved(a)[binding.symbol_id] + mentions(
            entries,
            binding.symbol_id,
        ));
    }
}

/// A variable that was made has no more references than were made.
pub proof fn lemma_fresh_can_refer(
    a: TraverseCtx<'_, ()>,
    b: TraverseCtx<'_, ()>,
    requests: Seq<Request>,
    entries: Seq<Entry>,
    i: int,
)
    requires
        issued(a, b, requests, entries),
        0 <= i < requests.len(),
    ensures
        can_refer(b, handed_out(a, b)[i], MAX_RESOLVED - entries.len()),
{
    let s = handed_out(a, b)[i].symbol_id;
    lemma_mentions_bound(entries, s);
    assert(resolved(b)[s] == mentions(entries, s));
}

/// Makes a `var` with a unique name.
pub fn create_uid(ctx: &mut TraverseCtx<'_, ()>, name: &str) -> (uid: BoundIdentifier)
    requires
        room(*old(ctx), 1, 0),
        name@.len() <= 0x1000_0000,
    ensures
        issued(*old(ctx), *final(ctx), seq![Request::Uid(name@)], Seq::empty()),
        handed_out(*old(ctx), *final(ctx)) == seq![uid@],
        can_refer(*final(ctx), uid@, MAX_RESOLVED as int),
        scopes(*final(ctx)) == scopes(*old(ctx)),
{
    let uid = generate_uid_in_current_hoist_scope(ctx, name);
    proof {
        lemma_no_entries(*old(ctx), *ctx);
        lemma_with_one_binding(bindings(*old(ctx)), hoist_scope(*old(ctx)), uid@);
    }
    assert(handed_out(*old(ctx), *ctx) =~= seq![uid@]);
    uid
}

/// Makes a `var` with the given name, in the scope that it is hoisted to.
pub fn create_var(ctx: &mut TraverseCtx<'_, ()>, name: &str) -> (binding: BoundIdentifier)
    requires
        room(*old(ctx), 1, 0),
        encode_utf8(name@).len() <= u32::MAX,
    ensures
        binding.name@ == name@,
        issued(*old(ctx), *final(ctx), seq![Request::Binding(name@)], Seq::empty()),
        handed_out(*old(ctx), *final(ctx)) == seq![binding@],
        can_refer(*final(ctx), binding@, MAX_RESOLVED as int),
        scopes(*final(ctx)) == scopes(*old(ctx)),
{
    let scope_id: usize = current_hoist_scope_id(ctx);
    let binding = generate_binding(ctx, name, scope_id, FUNCTION_SCOPED_VARIABLE);
    proof {
        lemma_no_entries(*old(ctx), *ctx);
        lemma_with_one_binding(bindings(*old(ctx)), hoist_scope(*old(ctx)), binding@);
        let asked = seq![Request::Binding(name@)];
        if all_short(*old(ctx), asked) {
            assert(asked[0] == Request::Binding(name@));
        }
    }
    assert(handed_out(*old(ctx), *ctx) =~= seq![binding@]);
    binding
}

/// A new symbol makes no reference.
proof fn lemma_no_entries(before: TraverseCtx<'_, ()>, after: TraverseCtx<'_, ()>)
    requires
        references(after) == references(before),
        resolved(after) == resolved(before).insert(symbols(before).len(), 0),
        symbols(after).len() == symbols(before).len() + 1,
    ensures
        noted(before, after, Seq::empty()),
{
    assert(references(before) + Seq::<Entry>::empty().map_values(
        |e: Entry| (Some(e.symbol_id), current_scope(before), e.flags),
    ) =~= references(before));
}

/// Makes a reference to a variable.
pub(crate) fn create_reference(
    ctx: &mut TraverseCtx<'_, ()>,
    binding: &BoundIdentifier,
    flags: u8,
) -> (reference_id: usize)
    requires
        room(*old(ctx), 0, 1),
        can_refer(*old(ctx), binding@, 1),
    ensures
        reference_id == references(*old(ctx)).len(),
        issued(
            *old(ctx),
            *final(ctx),
            Seq::empty(),
            seq![Entry { symbol_id: binding@.symbol_id, flags }],
        ),
        scopes(*final(ctx)) == scopes(*old(ctx)),
{
    let reference_id: usize = create_bound_reference(ctx, binding.symbol_id, flags);
    proof {
        let entries = seq![Entry { symbol_id: binding@.symbol_id, flags }];
        assert(references(*ctx) =~= references(*old(ctx)) + entries.map_values(
            |e: Entry| (Some(e.symbol_id), current_scope(*old(ctx)), e.flags),
        ));
        reveal_with_fuel(mentions, 2);
        assert(entries.drop_last() =~= Seq::empty());
    }
    reference_id
}

} // verus!
