//! Taking the decorators off a class and its members.
use super::members::{
    access_of, decorator_expressions, description, is_field, is_static_member, is_target, stripped,
};
use super::{options_view, with_lhs, ClassStateView, DecoratorVersion, Tc39Decorator, TransformView};
use crate::ast::{
    AccessorProperty, Class, ClassElement, Decorator, Expression, MethodDefinition,
    MethodDefinitionKind, PropertyDefinition, PropertyKey,
};
use crate::builder::{
    assign_of, assignment, expression_statement, read_of, statement_of, write_of,
};
use crate::context::{
    create_uid, handed_out, issued, lemma_can_refer, lemma_issued_append, lemma_issued_more,
    lemma_issued_nothing, read_entry, references, room, scopes, supplied, write_entry, Entry,
    Request, Supply,
};
use crate::model::{
    accessor_view, decorator_view, decorators_view, elements_view, field_view, method_view,
    BoundIdentifierView, ClassElementView, ClassView, DecoratorView, ExpressionView,
};
use oxc_traverse::TraverseCtx;
use vstd::prelude::*;

verus! {

/// Whether a member needs the function that runs the initialisers of its group. A field needs it
/// in the earlier version only.
pub open spec fn needs_initializer(version: DecoratorVersion, is_field: bool) -> bool {
    !is_field || version == DecoratorVersion::V202203
}

pub open spec fn lacks_initializer(t: TransformView, is_static: bool, is_field: bool) -> bool {
    needs_initializer(t.version, is_field) && if is_static {
        t.state.init_static is None
    } else {
        t.state.init_proto is None
    }
}

/// The name that the function for a group of members is asked for by.
pub open spec fn initializer_name(is_static: bool) -> Seq<char> {
    if is_static {
        "_initStatic"@
    } else {
        "_initProto"@
    }
}

/// The transform with one more decorated member, of which `text` is the description and `init` the
/// variable for its initialisers, which is written to.
pub open spec fn with_member(
    t: TransformView,
    text: ExpressionView,
    is_static: bool,
    is_field: bool,
    init: BoundIdentifierView,
    reference_id: nat,
) -> TransformView {
    let state = with_lhs(t.state, init, reference_id, is_static, is_field);
    TransformView {
        extra_vars: t.extra_vars.push((init, None)),
        state: if is_static {
            ClassStateView { init_static_args: state.init_static_args.push(Some(text)), ..state }
        } else {
            ClassStateView { init_proto_args: state.init_proto_args.push(Some(text)), ..state }
        },
        ..t
    }
}

pub open spec fn with_initializer(
    t: TransformView,
    is_static: bool,
    binding: BoundIdentifierView,
) -> TransformView {
    TransformView {
        state: if is_static {
            ClassStateView { init_static: Some(binding), ..t.state }
        } else {
            ClassStateView { init_proto: Some(binding), ..t.state }
        },
        ..t
    }
}

/// How far the transform has come, and what it has asked of the context on the way.
#[verifier::ext_equal]
pub struct Progress {
    pub transform: TransformView,
    pub requests: Seq<Request>,
    pub entries: Seq<Entry>,
}

/// The start of a way from this state.
pub open spec fn start_of(transform: TransformView) -> Progress {
    Progress { transform, requests: Seq::empty(), entries: Seq::empty() }
}

/// One more decorated member. The variables are taken from those that the context hands out, in the
/// order of the requests: one for the initialisers of the member, and one for the function that
/// runs those of its group, where that is needed and still lacks. The first is referred to once.
pub open spec fn registered(
    p: Progress,
    text: ExpressionView,
    is_static: bool,
    is_field: bool,
    supply: Supply,
) -> Progress {
    let n = p.requests.len() as int;
    let init = supply.fresh[n];
    let reference_id = supply.base + p.entries.len();
    let t = with_member(p.transform, text, is_static, is_field, init, reference_id);
    let requests = p.requests.push(Request::Uid("_init"@));
    let entries = p.entries.push(write_entry(init));
    if lacks_initializer(p.transform, is_static, is_field) {
        Progress {
            transform: with_initializer(t, is_static, supply.fresh[n + 1]),
            requests: requests.push(Request::Uid(initializer_name(is_static))),
            entries,
        }
    } else {
        Progress { transform: t, requests, entries }
    }
}

pub open spec fn visited(p: Progress, member: ClassElementView, supply: Supply) -> Progress {
    if is_target(member) {
        registered(
            p,
            description(p.transform.version, member),
            is_static_member(member),
            is_field(member),
            supply,
        )
    } else {
        p
    }
}

/// The members one after the other.
pub open spec fn visited_all(
    p: Progress,
    members: Seq<ClassElementView>,
    supply: Supply,
) -> Progress
    decreases members.len(),
{
    if members.len() == 0 {
        p
    } else {
        visited(visited_all(p, members.drop_last(), supply), members.last(), supply)
    }
}

/// The decorators of the class itself.
pub open spec fn with_class_decorators(
    t: TransformView,
    decorators: Seq<DecoratorView>,
) -> TransformView {
    TransformView {
        state: ClassStateView {
            class_decorators: t.state.class_decorators + decorator_expressions(
                decorators,
            ).map_values(|e: ExpressionView| Some(e)),
            ..t.state
        },
        ..t
    }
}

/// The superclass goes to a variable before the class.
pub open spec fn with_super_class(
    t: TransformView,
    super_class: ExpressionView,
    binding: BoundIdentifierView,
    reference_id: nat,
) -> TransformView {
    TransformView {
        extra_vars: t.extra_vars.push((binding, None)),
        pre_class_inits: t.pre_class_inits.push(
            statement_of(
                assign_of(
                    write_of(binding, reference_id),
                    ExpressionView::CloneIn(Box::new(super_class)),
                ),
            ),
        ),
        state: ClassStateView { super_class: Some(binding), ..t.state },
        ..t
    }
}

/// The transform when it has seen the class, but none of its members yet. The variable of the
/// superclass is written to before the class, and read by the class.
pub open spec fn class_entered(t: TransformView, class: ClassView, supply: Supply) -> Progress {
    let t = with_class_decorators(t, class.decorators);
    match class.super_class {
        Some(super_class) => Progress {
            transform: with_super_class(t, super_class, supply.fresh[0], supply.base),
            requests: seq![Request::Uid("_super"@)],
            entries: seq![write_entry(supply.fresh[0]), read_entry(supply.fresh[0])],
        },
        None => start_of(t),
    }
}

/// The transform when it has seen the class and its members.
pub open spec fn class_transformed(t: TransformView, class: ClassView, supply: Supply) -> Progress {
    visited_all(class_entered(t, class, supply), class.body, supply)
}

/// The class without the decorators that the transform takes over, its superclass in a variable.
pub open spec fn class_stripped(class: ClassView, supply: Supply) -> ClassView {
    ClassView {
        decorators: Seq::empty(),
        super_class: match class.super_class {
            Some(_) => Some(read_of(supply.fresh[0], supply.base + 1)),
            None => None,
        },
        body: class.body.map_values(|m: ClassElementView| stripped(m)),
        ..class
    }
}

/// How many variables a class with this many members can need.
pub open spec fn symbols_needed(members: int) -> int {
    2 * members + 1
}

/// How many references are made at most when a class with this many members is taken over.
pub open spec fn references_needed(members: int) -> int {
    members + 2
}

/// The supply with more variables.
pub open spec fn with_more(supply: Supply, more: Seq<BoundIdentifierView>) -> Supply {
    Supply { fresh: supply.fresh + more, ..supply }
}

/// The transform only takes variables that its requests have made.
proof fn lemma_visited_all_prefix(
    p: Progress,
    members: Seq<ClassElementView>,
    supply: Supply,
    more: Seq<BoundIdentifierView>,
)
    requires
        visited_all(p, members, supply).requests.len() <= supply.fresh.len(),
    ensures
        visited_all(p, members, with_more(supply, more)) == visited_all(p, members, supply),
        p.requests.len() <= visited_all(p, members, supply).requests.len(),
    decreases members.len(),
{
    if members.len() > 0 {
        let q = visited_all(p, members.drop_last(), supply);
        assert(q.requests.len() <= visited(q, members.last(), supply).requests.len());
        lemma_visited_all_prefix(p, members.drop_last(), supply, more);
    }
}

/// The transform of a class only takes variables that it has asked for.
pub proof fn lemma_class_transformed_prefix(
    t: TransformView,
    class: ClassView,
    supply: Supply,
    more: Seq<BoundIdentifierView>,
)
    requires
        class_transformed(t, class, supply).requests.len() <= supply.fresh.len(),
    ensures
        class_transformed(t, class, with_more(supply, more)) == class_transformed(t, class, supply),
        class_stripped(class, with_more(supply, more)) == class_stripped(class, supply),
{
    let p = class_entered(t, class, supply);
    lemma_visited_all_prefix(p, class.body, supply, more);
    assert(class_entered(t, class, with_more(supply, more)) == p);
}

proof fn lemma_visited_all_needs(p: Progress, members: Seq<ClassElementView>, supply: Supply)
    ensures
        visited_all(p, members, supply).requests.len() <= p.requests.len() + 2 * members.len(),
        visited_all(p, members, supply).entries.len() <= p.entries.len() + members.len(),
    decreases members.len(),
{
    if members.len() > 0 {
        lemma_visited_all_needs(p, members.drop_last(), supply);
    }
}

/// A class asks for no more variables than [`symbols_needed`], and makes no more references than
/// [`references_needed`].
pub proof fn lemma_class_needs(t: TransformView, class: ClassView, supply: Supply)
    ensures
        class_transformed(t, class, supply).requests.len() <= symbols_needed(
            class.body.len() as int,
        ),
        class_transformed(t, class, supply).entries.len() <= references_needed(
            class.body.len() as int,
        ),
{
    lemma_visited_all_needs(class_entered(t, class, supply), class.body, supply);
}

/// A member visited from the start is a member visited later on, with the earlier requests and
/// references put before its own.
proof fn lemma_visited_shift(
    p: Progress,
    member: ClassElementView,
    earlier: Supply,
    supply: Supply,
)
    requires
        earlier.fresh.len() == p.requests.len(),
        supply.base == earlier.base + p.entries.len(),
        visited(start_of(p.transform), member, supply).requests.len() == supply.fresh.len(),
    ensures
        ({
            let alone = visited(start_of(p.transform), member, supply);
            let later = visited(p, member, with_more(earlier, supply.fresh));
            &&& later.transform == alone.transform
            &&& later.requests == p.requests + alone.requests
            &&& later.entries == p.entries + alone.entries
        }),
{
    let alone = visited(start_of(p.transform), member, supply);
    let later = visited(p, member, with_more(earlier, supply.fresh));
    if is_target(member) {
        let fresh = earlier.fresh + supply.fresh;
        assert(fresh[p.requests.len() as int] == supply.fresh[0]);
        if supply.fresh.len() > 1 {
            assert(fresh[p.requests.len() as int + 1] == supply.fresh[1]);
        }
    }
    assert(later.requests =~= p.requests + alone.requests);
    assert(later.entries =~= p.entries + alone.entries);
}

impl Tc39Decorator {
    /// Takes up a decorated member.
    #[verifier::spinoff_prover]
    #[verifier::rlimit(30)]
    fn register_member(
        &mut self,
        text: Expression,
        is_static: bool,
        is_field: bool,
        ctx: &mut TraverseCtx<'_, ()>,
    )
        requires
            room(*old(ctx), 2, 1),
        ensures
            ({
                let p = registered(
                    start_of(old(self)@),
                    text@,
                    is_static,
                    is_field,
                    supplied(*old(ctx), *final(ctx)),
                );
                &&& final(self)@ == p.transform
                &&& issued(*old(ctx), *final(ctx), p.requests, p.entries)
            }),
            scopes(*final(ctx)) == scopes(*old(ctx)),
    {
        let ghost t0 = self@;
        proof {
            reveal_strlit("_init");
            reveal_strlit("_initStatic");
            reveal_strlit("_initProto");
        }
        let init = create_uid(ctx, "_init");
        let ghost ctx1 = *ctx;
        self.extra_vars.push((init.duplicate(), None));
        self.push_lhs_from_binding(&init, is_static, is_field, ctx);
        let ghost ctx2 = *ctx;
        let ghost asked = seq![Request::Uid("_init"@)];
        let ghost entries = seq![write_entry(init@)];
        proof {
            lemma_issued_more(*old(ctx), ctx1, ctx2, asked, Seq::empty(), entries);
            assert(Seq::<Entry>::empty() + entries =~= entries);
        }
        if is_static {
            self.state.init_static_args.push(Some(text));
        } else {
            self.state.init_proto_args.push(Some(text));
        }
        let ghost t1 = self@;
        assert(t1 =~= with_member(
            t0,
            text@,
            is_static,
            is_field,
            init@,
            references(*old(ctx)).len(),
        ));
        let needs = !is_field || !self.is_2023_11();
        let lacks = needs && if is_static {
            self.state.init_static.is_none()
        } else {
            self.state.init_proto.is_none()
        };
        assert(lacks == lacks_initializer(t0, is_static, is_field));
        if lacks {
            let binding = if is_static {
                create_uid(ctx, "_initStatic")
            } else {
                create_uid(ctx, "_initProto")
            };
            proof {
                let more = seq![Request::Uid(initializer_name(is_static))];
                lemma_issued_append(*old(ctx), ctx2, *ctx, asked, more, entries, Seq::empty());
                assert(entries + Seq::<Entry>::empty() =~= entries);
                assert(asked + more =~= asked.push(Request::Uid(initializer_name(is_static))));
                assert(handed_out(*old(ctx), *ctx) =~= seq![init@, binding@]);
            }
            if is_static {
                self.state.init_static = Some(binding);
            } else {
                self.state.init_proto = Some(binding);
            }
            assert(self@ =~= with_initializer(t1, is_static, binding@));
        }
        proof {
            let p = registered(
                start_of(t0),
                text@,
                is_static,
                is_field,
                supplied(*old(ctx), *ctx),
            );
            assert(handed_out(*old(ctx), *ctx)[0] == init@);
            assert(p.entries =~= entries);
            if lacks {
                assert(p.requests =~= asked.push(Request::Uid(initializer_name(is_static))));
            } else {
                assert(p.requests =~= asked);
            }
        }
    }

    /// Takes the decorators off a method, a getter or a setter.
    #[verifier::spinoff_prover]
    #[verifier::rlimit(30)]
    fn transform_method(&mut self, method: MethodDefinition, ctx: &mut TraverseCtx<'_, ()>) -> (r:
        MethodDefinition)
        requires
            room(*old(ctx), 2, 1),
        ensures
            ClassElementView::MethodDefinition(method_view(r)) == stripped(
                ClassElementView::MethodDefinition(method_view(method)),
            ),
            ({
                let p = visited(
                    start_of(old(self)@),
                    ClassElementView::MethodDefinition(method_view(method)),
                    supplied(*old(ctx), *final(ctx)),
                );
                &&& final(self)@ == p.transform
                &&& issued(*old(ctx), *final(ctx), p.requests, p.entries)
            }),
            scopes(*final(ctx)) == scopes(*old(ctx)),
    {
        let ghost version = self@.version;
        let ghost member = ClassElementView::MethodDefinition(method_view(method));
        let mut method = method;
        proof {
            lemma_issued_nothing(*ctx);
            assert(decorators_view(method.decorators@).len() == method.decorators@.len());
        }
        if method.kind == MethodDefinitionKind::Constructor || method.decorators.is_empty() {
            return method;
        }
        let mut decorators: Vec<Decorator> = Vec::new();
        std::mem::swap(&mut decorators, &mut method.decorators);
        let kind: i32 = self.method_kind_code(method.is_static, method.kind);
        let elems = Self::describe(decorators, kind, &method.key);
        let entry = self.build_array(elems);
        assert(entry@->ArrayExpression_0 =~= description(version, member)->ArrayExpression_0);
        self.register_member(entry, method.is_static, false, ctx);
        assert(decorators_view(method.decorators@) =~= Seq::empty());
        method
    }

    /// Takes the decorators off a field.
    #[verifier::spinoff_prover]
    #[verifier::rlimit(30)]
    fn transform_property(
        &mut self,
        property: PropertyDefinition,
        ctx: &mut TraverseCtx<'_, ()>,
    ) -> (r:
        PropertyDefinition)
        requires
            room(*old(ctx), 2, 1),
        ensures
            ClassElementView::PropertyDefinition(field_view(r)) == stripped(
                ClassElementView::PropertyDefinition(field_view(property)),
            ),
            ({
                let p = visited(
                    start_of(old(self)@),
                    ClassElementView::PropertyDefinition(field_view(property)),
                    supplied(*old(ctx), *final(ctx)),
                );
                &&& final(self)@ == p.transform
                &&& issued(*old(ctx), *final(ctx), p.requests, p.entries)
            }),
            scopes(*final(ctx)) == scopes(*old(ctx)),
    {
        let ghost version = self@.version;
        let ghost member = ClassElementView::PropertyDefinition(field_view(property));
        let mut property = property;
        proof {
            lemma_issued_nothing(*ctx);
            assert(decorators_view(property.decorators@).len() == property.decorators@.len());
        }
        if property.is_abstract || property.decorators.is_empty() {
            return property;
        }
        let mut decorators: Vec<Decorator> = Vec::new();
        std::mem::swap(&mut decorators, &mut property.decorators);
        let kind: i32 = self.field_kind_code(property.is_static);
        let mut elems = Self::describe(decorators, kind, &property.key);
        let ghost start = options_view(elems@);
        if let PropertyKey::PrivateIdentifier(name) = &property.key {
            elems.push(Some(self.private_getter(name.as_str())));
            elems.push(Some(self.private_setter(name.as_str())));
        }
        assert(options_view(elems@) =~= start + access_of(version, member).map_values(
            |e: ExpressionView| Some(e),
        ));
        let entry = self.build_array(elems);
        assert(entry@->ArrayExpression_0 =~= description(version, member)->ArrayExpression_0);
        self.register_member(entry, property.is_static, true, ctx);
        assert(decorators_view(property.decorators@) =~= Seq::empty());
        property
    }

    /// Takes the decorators off an accessor.
    #[verifier::spinoff_prover]
    #[verifier::rlimit(30)]
    fn transform_accessor(
        &mut self,
        accessor: AccessorProperty,
        ctx: &mut TraverseCtx<'_, ()>,
    ) -> (r:
        AccessorProperty)
        requires
            room(*old(ctx), 2, 1),
        ensures
            ClassElementView::AccessorProperty(accessor_view(r)) == stripped(
                ClassElementView::AccessorProperty(accessor_view(accessor)),
            ),
            ({
                let p = visited(
                    start_of(old(self)@),
                    ClassElementView::AccessorProperty(accessor_view(accessor)),
                    supplied(*old(ctx), *final(ctx)),
                );
                &&& final(self)@ == p.transform
                &&& issued(*old(ctx), *final(ctx), p.requests, p.entries)
            }),
            scopes(*final(ctx)) == scopes(*old(ctx)),
    {
        let ghost version = self@.version;
        let ghost member = ClassElementView::AccessorProperty(accessor_view(accessor));
        let mut accessor = accessor;
        proof {
            lemma_issued_nothing(*ctx);
            assert(decorators_view(accessor.decorators@).len() == accessor.decorators@.len());
        }
        if accessor.decorators.is_empty() {
            return accessor;
        }
        let mut decorators: Vec<Decorator> = Vec::new();
        std::mem::swap(&mut decorators, &mut accessor.decorators);
        let kind: i32 = self.accessor_kind_code(accessor.is_static);
        let mut elems = Self::describe(decorators, kind, &accessor.key);
        let ghost start = options_view(elems@);
        if let PropertyKey::PrivateIdentifier(_) = &accessor.key {
            elems.push(Some(Expression::NullLiteral));
            elems.push(Some(Expression::NullLiteral));
        }
        assert(options_view(elems@) =~= start + access_of(version, member).map_values(
            |e: ExpressionView| Some(e),
        ));
        let entry = self.build_array(elems);
        assert(entry@->ArrayExpression_0 =~= description(version, member)->ArrayExpression_0);
        self.register_member(entry, accessor.is_static, false, ctx);
        assert(decorators_view(accessor.decorators@) =~= Seq::empty());
        accessor
    }

    /// Takes the decorators off a member, if it is one that they are taken off.
    fn transform_member(&mut self, member: ClassElement, ctx: &mut TraverseCtx<'_, ()>) -> (r:
        ClassElement)
        requires
            room(*old(ctx), 2, 1),
        ensures
            r@ == stripped(member@),
            ({
                let p = visited(
                    start_of(old(self)@),
                    member@,
                    supplied(*old(ctx), *final(ctx)),
                );
                &&& final(self)@ == p.transform
                &&& issued(*old(ctx), *final(ctx), p.requests, p.entries)
            }),
            scopes(*final(ctx)) == scopes(*old(ctx)),
    {
        match member {
            ClassElement::MethodDefinition(method) => ClassElement::MethodDefinition(
                self.transform_method(method, ctx),
            ),
            ClassElement::PropertyDefinition(property) => ClassElement::PropertyDefinition(
                self.transform_property(property, ctx),
            ),
            ClassElement::AccessorProperty(accessor) => ClassElement::AccessorProperty(
                self.transform_accessor(accessor, ctx),
            ),
            ClassElement::Source(id) => {
                proof {
                    lemma_issued_nothing(*ctx);
                }
                ClassElement::Source(id)
            },
        }
    }

    /// Takes over the decorators of the class itself.
    fn take_class_decorators(&mut self, class: &mut Class)
        ensures
            final(self)@ == with_class_decorators(old(self)@, old(class)@.decorators),
            final(class)@ == (ClassView { decorators: Seq::empty(), ..old(class)@ }),
    {
        let ghost t0 = self@;
        let ghost c0 = class@;
        let mut decorators: Vec<Decorator> = Vec::new();
        std::mem::swap(&mut decorators, &mut class.decorators);
        let ghost all = decorators_view(decorators@);
        assert(decorators_view(class.decorators@) =~= Seq::empty());
        assert(class@ =~= ClassView { decorators: Seq::empty(), ..c0 });
        assert(self@ =~= with_class_decorators(t0, all.take(0)));
        for dec in it: decorators.into_iter()
            invariant
                it.seq() == decorators@,
                all == decorators_view(decorators@),
                self@ == with_class_decorators(t0, all.take(it.index())),
        {
            let ghost i = it.index();
            let ghost t = self@;
            assert(all[i] == decorator_view(dec));
            let ghost old_list = self.state.class_decorators@;
            self.state.class_decorators.push(Some(dec.expression));
            proof {
                assert(options_view(self.state.class_decorators@) =~= options_view(old_list).push(
                    Some(dec.expression@),
                ));
                let mapped = |s: Seq<DecoratorView>| decorator_expressions(s).map_values(
                    |e: ExpressionView| Some(e),
                );
                assert(mapped(all.take(i + 1)) =~= mapped(all.take(i)).push(
                    Some(dec.expression@),
                ));
                assert(self@ =~= with_class_decorators(t0, all.take(i + 1)));
            }
        }
        assert(all.take(all.len() as int) =~= all);
    }

    /// Moves the superclass to a variable, if the class has one.
    #[verifier::spinoff_prover]
    #[verifier::rlimit(30)]
    fn take_super_class(&mut self, class: &mut Class, ctx: &mut TraverseCtx<'_, ()>)
        requires
            room(*old(ctx), 1, 2),
        ensures
            ({
                let supply = supplied(*old(ctx), *final(ctx));
                match old(class)@.super_class {
                    Some(super_class) => {
                        &&& supply.fresh.len() == 1
                        &&& final(self)@ == with_super_class(
                            old(self)@,
                            super_class,
                            supply.fresh[0],
                            supply.base,
                        )
                        &&& final(class)@ == (ClassView {
                            super_class: Some(read_of(supply.fresh[0], supply.base + 1)),
                            ..old(class)@
                        })
                        &&& issued(
                            *old(ctx),
                            *final(ctx),
                            seq![Request::Uid("_super"@)],
                            seq![write_entry(supply.fresh[0]), read_entry(supply.fresh[0])],
                        )
                    },
                    None => {
                        &&& final(self)@ == old(self)@
                        &&& final(class)@ == old(class)@
                        &&& issued(*old(ctx), *final(ctx), Seq::empty(), Seq::empty())
                    },
                }
            }),
            scopes(*final(ctx)) == scopes(*old(ctx)),
    {
        let ghost t0 = self@;
        proof {
            lemma_issued_nothing(*ctx);
            reveal_strlit("_super");
        }
        let mut super_class: Option<Expression> = None;
        std::mem::swap(&mut super_class, &mut class.super_class);
        if let Some(super_expr) = super_class {
            let binding = create_uid(ctx, "_super");
            let ghost asked = seq![Request::Uid("_super"@)];
            let ghost ctx1 = *ctx;
            self.extra_vars.push((binding.duplicate(), None));
            let copy = Expression::CloneIn(Box::new(super_expr));
            let target = binding.write(ctx);
            let ghost ctx2 = *ctx;
            proof {
                lemma_issued_more(
                    *old(ctx),
                    ctx1,
                    ctx2,
                    asked,
                    Seq::empty(),
                    seq![write_entry(binding@)],
                );
                lemma_can_refer(
                    ctx1,
                    ctx2,
                    Seq::empty(),
                    seq![write_entry(binding@)],
                    Some(binding@),
                    2,
                );
                assert(Seq::<Entry>::empty() + seq![write_entry(binding@)] =~= seq![
                    write_entry(binding@),
                ]);
            }
            self.pre_class_inits.push(expression_statement(assignment(target, copy)));
            class.super_class = Some(binding.read(ctx));
            proof {
                lemma_issued_more(
                    *old(ctx),
                    ctx2,
                    *ctx,
                    asked,
                    seq![write_entry(binding@)],
                    seq![read_entry(binding@)],
                );
                assert(seq![write_entry(binding@)] + seq![read_entry(binding@)] =~= seq![
                    write_entry(binding@),
                    read_entry(binding@),
                ]);
            }
            self.state.super_class = Some(binding);
            assert(self@ =~= with_super_class(
                t0,
                super_expr@,
                binding@,
                references(*old(ctx)).len(),
            ));
        }
    }

    /// Takes over the decorators of a class and its members.
    #[verifier::spinoff_prover]
    #[verifier::rlimit(40)]
    pub fn transform_class(&mut self, class: &mut Class, ctx: &mut TraverseCtx<'_, ()>)
        requires
            room(
                *old(ctx),
                symbols_needed(old(class)@.body.len() as int),
                references_needed(old(class)@.body.len() as int),
            ),
        ensures
            ({
                let supply = supplied(*old(ctx), *final(ctx));
                let p = class_transformed(old(self)@, old(class)@, supply);
                &&& final(self)@ == p.transform
                &&& final(class)@ == class_stripped(old(class)@, supply)
                &&& issued(*old(ctx), *final(ctx), p.requests, p.entries)
            }),
            scopes(*final(ctx)) == scopes(*old(ctx)),
    {
        let ghost t0 = self@;
        let ghost c0 = class@;
        self.take_class_decorators(class);
        self.take_super_class(class, ctx);
        let ghost first = supplied(*old(ctx), *ctx);
        let ghost start = class_entered(t0, c0, first);
        assert(self@ == start.transform);
        assert(issued(*old(ctx), *ctx, start.requests, start.entries));

        let mut members: Vec<ClassElement> = Vec::new();
        std::mem::swap(&mut members, &mut class.body);
        let ghost all = elements_view(members@);
        let mut new_members: Vec<ClassElement> = Vec::new();
        assert(all.take(0) =~= Seq::empty());
        for member in it: members.into_iter()
            invariant
                it.seq() == members@,
                all == elements_view(members@),
                all.len() == c0.body.len(),
                first.fresh.len() == start.requests.len(),
                first.fresh.len() <= handed_out(*old(ctx), *ctx).len(),
                first.base == references(*old(ctx)).len(),
                forall|j: int|
                    0 <= j < first.fresh.len() ==> #[trigger] handed_out(*old(ctx), *ctx)[j]
                        == first.fresh[j],
                ({
                    let p = visited_all(start, all.take(it.index()), supplied(*old(ctx), *ctx));
                    &&& self@ == p.transform
                    &&& issued(*old(ctx), *ctx, p.requests, p.entries)
                }),
                elements_view(new_members@) == all.take(it.index()).map_values(
                    |m: ClassElementView| stripped(m),
                ),
                room(*ctx, 2 * (all.len() - it.index()), all.len() - it.index()),
                scopes(*ctx) == scopes(*old(ctx)),
        {
            let ghost before = *ctx;
            let ghost i = it.index();
            let ghost earlier = supplied(*old(ctx), before);
            let ghost p = visited_all(start, all.take(i), earlier);
            let ghost done = new_members@;
            assert(all[i] == member@);
            let new_member = self.transform_member(member, ctx);
            new_members.push(new_member);
            proof {
                let supply = supplied(before, *ctx);
                let alone = visited(start_of(p.transform), member@, supply);
                lemma_issued_append(
                    *old(ctx),
                    before,
                    *ctx,
                    p.requests,
                    alone.requests,
                    p.entries,
                    alone.entries,
                );
                lemma_visited_all_prefix(start, all.take(i), earlier, supply.fresh);
                lemma_visited_shift(p, member@, earlier, supply);
                assert(supplied(*old(ctx), *ctx) == with_more(earlier, supply.fresh));
                assert(all.take(i + 1).drop_last() =~= all.take(i));
                assert(all.take(i + 1).last() == member@);
                assert(elements_view(new_members@) =~= elements_view(done).push(stripped(member@)));
                assert(all.take(i + 1).map_values(|m: ClassElementView| stripped(m))
                    =~= all.take(i).map_values(|m: ClassElementView| stripped(m)).push(
                    stripped(member@),
                ));
                assert forall|j: int| 0 <= j < first.fresh.len() implies #[trigger] handed_out(
                    *old(ctx),
                    *ctx,
                )[j] == first.fresh[j] by {
                    assert(handed_out(*old(ctx), *ctx)[j] == earlier.fresh[j]);
                }
            }
        }
        class.body = new_members;
        proof {
            assert(all.take(all.len() as int) =~= all);
            let supply = supplied(*old(ctx), *ctx);
            if c0.super_class is Some {
                assert(supply.fresh[0] == first.fresh[0]);
            }
            assert(start == class_entered(t0, c0, supply));
            assert(class@ =~= class_stripped(c0, supply));
        }
    }
}

} // verus!
