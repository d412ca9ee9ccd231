//! The decorator transform and the state that it keeps between the nodes that it visits.
use crate::ast::{AssignmentTarget, BoundIdentifier, Expression, Helper, Statement};
use crate::builder::write_of;
use crate::context::{can_refer, issued, references, room, scopes, write_entry};
use crate::model::{
    statements_view, targets_view, AssignmentTargetView, BoundIdentifierView, ExpressionView,
    StatementView,
};
use oxc_traverse::TraverseCtx;
use vstd::prelude::*;

pub mod apply;
pub mod inject;
pub mod kinds;
pub mod members;
pub mod transform;
pub mod visit;

verus! {

/// The version of the decorators proposal that the output follows.
#[derive(Clone, Copy, Debug, PartialEq, Eq, Structural)]
pub enum DecoratorVersion {
    V202311,
    V202203,
}

/// What is known of the class at hand, and is still to be put out.
pub struct Tc39ClassState {
    init_proto: Option<BoundIdentifier>,
    init_static: Option<BoundIdentifier>,
    init_proto_args: Vec<Option<Expression>>,
    init_static_args: Vec<Option<Expression>>,
    static_non_field_lhs: Vec<AssignmentTarget>,
    proto_non_field_lhs: Vec<AssignmentTarget>,
    static_field_lhs: Vec<AssignmentTarget>,
    proto_field_lhs: Vec<AssignmentTarget>,
    class_decorators: Vec<Option<Expression>>,
    class_decorators_have_this: bool,
    class_lhs: Vec<AssignmentTarget>,
    super_class: Option<BoundIdentifier>,
    instance_brand: Option<String>,
    extra_stmts: Vec<Statement>,
    needs_expr_wrap: bool,
    expr_wrap_class_ref: Option<BoundIdentifier>,
    expr_extra_vars: Vec<(BoundIdentifier, Option<Expression>)>,
    expr_pre_class_inits: Vec<Statement>,
    expr_extra_stmts: Vec<Statement>,
}

/// The transform of classes with decorators.
pub struct Tc39Decorator {
    version: DecoratorVersion,
    state: Tc39ClassState,
    extra_vars: Vec<(BoundIdentifier, Option<Expression>)>,
    pre_class_inits: Vec<Statement>,
}

#[verifier::ext_equal]
pub struct ClassStateView {
    /// The function that runs the initialisers of an instance, once one is needed.
    pub init_proto: Option<BoundIdentifierView>,
    /// The function that runs the static initialisers, once one is needed.
    pub init_static: Option<BoundIdentifierView>,
    /// The descriptions of the decorated instance members.
    pub init_proto_args: Seq<Option<ExpressionView>>,
    /// The descriptions of the decorated static members.
    pub init_static_args: Seq<Option<ExpressionView>>,
    /// The variables that take the initialisers of the decorated members.
    pub static_non_field_lhs: Seq<AssignmentTargetView>,
    pub proto_non_field_lhs: Seq<AssignmentTargetView>,
    pub static_field_lhs: Seq<AssignmentTargetView>,
    pub proto_field_lhs: Seq<AssignmentTargetView>,
    /// The decorators of the class itself.
    pub class_decorators: Seq<Option<ExpressionView>>,
    pub class_decorators_have_this: bool,
    /// The variable that takes the decorated class.
    pub class_lhs: Seq<AssignmentTargetView>,
    /// The variable that holds the superclass.
    pub super_class: Option<BoundIdentifierView>,
    /// A private name that every instance has.
    pub instance_brand: Option<Seq<char>>,
    /// The statements that are to follow the class.
    pub extra_stmts: Seq<StatementView>,
    /// Whether a class expression waits to be wrapped, and what goes into the wrapper.
    pub needs_expr_wrap: bool,
    pub expr_wrap_class_ref: Option<BoundIdentifierView>,
    pub expr_extra_vars: Seq<(BoundIdentifierView, Option<ExpressionView>)>,
    pub expr_pre_class_inits: Seq<StatementView>,
    pub expr_extra_stmts: Seq<StatementView>,
}

#[verifier::ext_equal]
pub struct TransformView {
    pub version: DecoratorVersion,
    pub state: ClassStateView,
    /// The variables that are to be declared before the class, with their initial values.
    pub extra_vars: Seq<(BoundIdentifierView, Option<ExpressionView>)>,
    /// The statements that are to stand before the class.
    pub pre_class_inits: Seq<StatementView>,
}

pub open spec fn option_expression_view(e: Option<Expression>) -> Option<ExpressionView> {
    match e {
        Some(e) => Some(e@),
        None => None,
    }
}

pub open spec fn option_binding_view(b: Option<BoundIdentifier>) -> Option<BoundIdentifierView> {
    match b {
        Some(b) => Some(b@),
        None => None,
    }
}

pub open spec fn options_view(s: Seq<Option<Expression>>) -> Seq<Option<ExpressionView>> {
    s.map_values(|e: Option<Expression>| option_expression_view(e))
}

pub open spec fn vars_view(s: Seq<(BoundIdentifier, Option<Expression>)>) -> Seq<
    (BoundIdentifierView, Option<ExpressionView>),
> {
    s.map_values(
        |v: (BoundIdentifier, Option<Expression>)| (v.0@, option_expression_view(v.1)),
    )
}

impl View for Tc39ClassState {
    type V = ClassStateView;

    closed spec fn view(&self) -> ClassStateView {
        ClassStateView {
            init_proto: option_binding_view(self.init_proto),
            init_static: option_binding_view(self.init_static),
            init_proto_args: options_view(self.init_proto_args@),
            init_static_args: options_view(self.init_static_args@),
            static_non_field_lhs: targets_view(self.static_non_field_lhs@),
            proto_non_field_lhs: targets_view(self.proto_non_field_lhs@),
            static_field_lhs: targets_view(self.static_field_lhs@),
            proto_field_lhs: targets_view(self.proto_field_lhs@),
            class_decorators: options_view(self.class_decorators@),
            class_decorators_have_this: self.class_decorators_have_this,
            class_lhs: targets_view(self.class_lhs@),
            super_class: option_binding_view(self.super_class),
            instance_brand: match self.instance_brand {
                Some(name) => Some(name@),
                None => None,
            },
            extra_stmts: statements_view(self.extra_stmts@),
            needs_expr_wrap: self.needs_expr_wrap,
            expr_wrap_class_ref: option_binding_view(self.expr_wrap_class_ref),
            expr_extra_vars: vars_view(self.expr_extra_vars@),
            expr_pre_class_inits: statements_view(self.expr_pre_class_inits@),
            expr_extra_stmts: statements_view(self.expr_extra_stmts@),
        }
    }
}

impl View for Tc39Decorator {
    type V = TransformView;

    closed spec fn view(&self) -> TransformView {
        TransformView {
            version: self.version,
            state: self.state@,
            extra_vars: vars_view(self.extra_vars@),
            pre_class_inits: statements_view(self.pre_class_inits@),
        }
    }
}

/// A state in which nothing is pending.
pub open spec fn empty_state() -> ClassStateView {
    ClassStateView {
        init_proto: None,
        init_static: None,
        init_proto_args: Seq::empty(),
        init_static_args: Seq::empty(),
        static_non_field_lhs: Seq::empty(),
        proto_non_field_lhs: Seq::empty(),
        static_field_lhs: Seq::empty(),
        proto_field_lhs: Seq::empty(),
        class_decorators: Seq::empty(),
        class_decorators_have_this: false,
        class_lhs: Seq::empty(),
        super_class: None,
        instance_brand: None,
        extra_stmts: Seq::empty(),
        needs_expr_wrap: false,
        expr_wrap_class_ref: None,
        expr_extra_vars: Seq::empty(),
        expr_pre_class_inits: Seq::empty(),
        expr_extra_stmts: Seq::empty(),
    }
}

/// The state with one more variable for the initialisers of a member, in the group that the
/// member belongs to.
pub open spec fn with_lhs(
    state: ClassStateView,
    binding: BoundIdentifierView,
    reference_id: nat,
    is_static: bool,
    is_field: bool,
) -> ClassStateView {
    let target = write_of(binding, reference_id);
    if is_static {
        if is_field {
            ClassStateView { static_field_lhs: state.static_field_lhs.push(target), ..state }
        } else {
            ClassStateView { static_non_field_lhs: state.static_non_field_lhs.push(target), ..state }
        }
    } else if is_field {
        ClassStateView { proto_field_lhs: state.proto_field_lhs.push(target), ..state }
    } else {
        ClassStateView { proto_non_field_lhs: state.proto_non_field_lhs.push(target), ..state }
    }
}

impl Tc39Decorator {
    /// A transform that has seen no class yet.
    pub fn new(version: DecoratorVersion) -> (r: Self)
        ensures
            r@ == (TransformView {
                version,
                state: empty_state(),
                extra_vars: Seq::empty(),
                pre_class_inits: Seq::empty(),
            }),
            visit::wf(r@),
    {
        let state = Tc39ClassState {
            init_proto: None,
            init_static: None,
            init_proto_args: Vec::new(),
            init_static_args: Vec::new(),
            static_non_field_lhs: Vec::new(),
            proto_non_field_lhs: Vec::new(),
            static_field_lhs: Vec::new(),
            proto_field_lhs: Vec::new(),
            class_decorators: Vec::new(),
            class_decorators_have_this: false,
            class_lhs: Vec::new(),
            super_class: None,
            instance_brand: None,
            extra_stmts: Vec::new(),
            needs_expr_wrap: false,
            expr_wrap_class_ref: None,
            expr_extra_vars: Vec::new(),
            expr_pre_class_inits: Vec::new(),
            expr_extra_stmts: Vec::new(),
        };
        let r = Tc39Decorator {
            version,
            state,
            extra_vars: Vec::new(),
            pre_class_inits: Vec::new(),
        };
        assert(r@.state =~= empty_state());
        assert(r@.extra_vars =~= Seq::empty());
        assert(r@.pre_class_inits =~= Seq::empty());
        r
    }

    pub(crate) fn is_2023_11(&self) -> (r: bool)
        ensures
            r == (self@.version == DecoratorVersion::V202311),
    {
        self.version == DecoratorVersion::V202311
    }

    /// The helper that applies the decorators in this version.
    pub fn helper(&self) -> (r: Helper)
        ensures
            r == kinds::helper_of(self@.version),
    {
        if self.is_2023_11() {
            Helper::ApplyDecs2311
        } else {
            Helper::ApplyDecs2203R
        }
    }

    pub(crate) fn push_lhs_from_binding(
        &mut self,
        binding: &BoundIdentifier,
        is_static: bool,
        is_field: bool,
        ctx: &mut TraverseCtx<'_, ()>,
    )
        requires
            room(*old(ctx), 0, 1),
            can_refer(*old(ctx), binding@, 1),
        ensures
            final(self)@ == (TransformView {
                state: with_lhs(
                    old(self)@.state,
                    binding@,
                    references(*old(ctx)).len(),
                    is_static,
                    is_field,
                ),
                ..old(self)@
            }),
            issued(*old(ctx), *final(ctx), Seq::empty(), seq![write_entry(binding@)]),
            scopes(*final(ctx)) == scopes(*old(ctx)),
    {
        let target = binding.write(ctx);
        let ghost before = self@.state;
        if is_static {
            if is_field {
                self.state.static_field_lhs.push(target);
            } else {
                self.state.static_non_field_lhs.push(target);
            }
        } else if is_field {
            self.state.proto_field_lhs.push(target);
        } else {
            self.state.proto_non_field_lhs.push(target);
        }
        assert(self@.state =~= with_lhs(
            before,
            binding@,
            references(*old(ctx)).len(),
            is_static,
            is_field,
        ));
    }
}

} // verus!
