//! What the transform does to the symbol table and the scope tree of a real program.
use oxc_allocator::Allocator;
use oxc_ast::ast as js;
use oxc_parser::Parser;
use oxc_semantic::{
    ReferenceFlags, ReferenceId, ScopeFlags, ScopeId, SemanticBuilder, SymbolFlags, SymbolId,
};
use oxc_span::SourceType;
use oxc_traverse::{traverse_mut, Traverse, TraverseCtx};
use tc39_decorators::ast::{
    Argument, AssignmentTarget, Class, ClassElement, ClassType, Decorator, Expression, Identifier,
    MethodDefinition, MethodDefinitionKind, MethodSource, Program, PropertyKey, Span, Statement,
};
use tc39_decorators::context::{create_uid, create_var, has_room, has_scope_room};
use tc39_decorators::decorator::{DecoratorVersion, Tc39Decorator};

/// Runs a check in the scope of the first function of a program.
struct InFunction<F> {
    check: F,
    runs: usize,
}

impl<'a, F: FnMut(&mut TraverseCtx<'a, ()>)> Traverse<'a, ()> for InFunction<F> {
    fn enter_function_body(
        &mut self,
        _node: &mut js::FunctionBody<'a>,
        ctx: &mut TraverseCtx<'a, ()>,
    ) {
        (self.check)(ctx);
        self.runs += 1;
    }
}

fn in_function(source: &str, check: impl for<'a> FnMut(&mut TraverseCtx<'a, ()>)) {
    let allocator = Allocator::default();
    let mut program = Parser::new(&allocator, source, SourceType::script()).parse().program;
    let scoping = SemanticBuilder::new().build(&program).semantic.into_scoping();
    let mut traverser = InFunction { check, runs: 0 };
    traverse_mut(&mut traverser, &allocator, &mut program, scoping, ());
    assert_eq!(traverser.runs, 1);
}

fn decorated_method() -> ClassElement {
    ClassElement::MethodDefinition(MethodDefinition {
        source: MethodSource::Source(3),
        kind: MethodDefinitionKind::Method,
        is_static: false,
        decorators: vec![Decorator {
            span: Span { start: 0, end: 1 },
            expression: Expression::Source(2),
        }],
        key: PropertyKey::StaticIdentifier("m".to_string()),
        body: Some(Vec::new()),
    })
}

fn class(class_type: ClassType, name: Option<&str>) -> Class {
    Class {
        source: 1,
        class_type,
        name: name.map(str::to_string),
        decorators: Vec::new(),
        super_class: None,
        body: vec![decorated_method()],
    }
}

#[test]
fn unique_names_are_hoisted_vars() {
    in_function("function f() { let _a, b; }", |ctx| {
        let before = ctx.scoping().symbols_len();
        let first = create_uid(ctx, "_a");
        let second = create_uid(ctx, "__a7");
        let third = create_uid(ctx, "b");
        assert_eq!(first.name, "_a2");
        assert_eq!(second.name, "_a3");
        assert_eq!(third.name, "_b");
        assert_eq!(first.symbol_id, before);
        assert_eq!(third.symbol_id, before + 2);
        assert_eq!(ctx.scoping().symbols_len(), before + 3);
        for uid in [&first, &second, &third] {
            let symbol = SymbolId::from_usize(uid.symbol_id);
            assert_eq!(ctx.scoping().symbol_name(symbol), uid.name);
            assert_eq!(ctx.scoping().symbol_flags(symbol), SymbolFlags::FunctionScopedVariable);
            assert_eq!(ctx.scoping().symbol_scope_id(symbol), ctx.current_hoist_scope_id());
            let name = ctx.ast.ident(&uid.name);
            let scope_id = ctx.current_hoist_scope_id();
            assert_eq!(ctx.scoping().get_binding(scope_id, name), Some(symbol));
        }
    });
}

#[test]
fn variables_get_the_name_asked_for() {
    in_function("function f() { let a; }", |ctx| {
        let scope_id = ctx.current_hoist_scope_id();
        let name = ctx.ast.ident("a");
        let before = ctx.scoping().get_binding(scope_id, name);
        assert!(before.is_some());
        let binding = create_var(ctx, "a");
        let symbol = SymbolId::from_usize(binding.symbol_id);
        assert_ne!(before, Some(symbol));
        assert_eq!(ctx.scoping().get_binding(scope_id, name), Some(symbol));
        assert_eq!(binding.name, "a");
        assert_eq!(ctx.scoping().symbol_name(symbol), "a");
        assert_eq!(ctx.scoping().symbol_flags(symbol), SymbolFlags::FunctionScopedVariable);
        assert_eq!(ctx.scoping().symbol_scope_id(symbol), ctx.current_hoist_scope_id());
    });
}

#[test]
fn room_is_what_the_tables_leave() {
    in_function("function f() { let a, b; }", |ctx| {
        let symbols = 0x0400_0000 - ctx.scoping().symbols_len();
        assert!(has_room(ctx, 0, 0));
        assert!(has_room(ctx, symbols, 0));
        assert!(!has_room(ctx, symbols + 1, 0));
        assert!(!has_room(ctx, usize::MAX, 0));
        let binding = create_var(ctx, "c");
        let symbol = SymbolId::from_usize(binding.symbol_id);
        let last = ctx.create_bound_reference(symbol, ReferenceFlags::Read).index();
        let references = u32::MAX as usize - (last + 1);
        assert!(has_room(ctx, 0, references));
        assert!(!has_room(ctx, 0, references + 1));
        assert!(!has_room(ctx, 0, usize::MAX));
        assert!(has_scope_room(ctx));
    });
}

#[test]
fn asking_for_room_changes_nothing() {
    in_function("function f() { let a, b; a = b; g(); }", |ctx| {
        let before = (ctx.scoping().symbols_len(), ctx.scoping().scopes_len());
        let names: Vec<String> = ctx.scoping().symbol_names().map(str::to_string).collect();
        let lists: Vec<usize> = ctx.scoping().resolved_references().map(|r| r.len()).collect();
        assert!(has_room(ctx, 1, 1));
        assert_eq!((ctx.scoping().symbols_len(), ctx.scoping().scopes_len()), before);
        let names_after: Vec<String> = ctx.scoping().symbol_names().map(str::to_string).collect();
        let lists_after: Vec<usize> =
            ctx.scoping().resolved_references().map(|r| r.len()).collect();
        assert_eq!(names_after, names);
        assert_eq!(lists_after, lists);
        assert!(ctx.scoping().root_unresolved_references().contains_key("g"));
    });
}

#[test]
fn new_constructor_has_a_scope_of_its_own() {
    in_function("function f() { 'use strict'; }", |ctx| {
        let scopes = ctx.scoping().scopes_len();
        let current = ctx.current_scope_id();
        let mut t = Tc39Decorator::new(DecoratorVersion::V202311);
        let mut class = class(ClassType::ClassExpression, None);
        assert!(t.try_enter_class(&mut class, ctx));
        assert_eq!(ctx.scoping().scopes_len(), scopes);
        assert!(t.try_exit_class(&mut class, ctx));
        assert_eq!(ctx.scoping().scopes_len(), scopes + 1);
        let created = match &class.body[0] {
            ClassElement::MethodDefinition(method) => method.source,
            _ => unreachable!(),
        };
        assert_eq!(created, MethodSource::Created { has_super: false, scope_id: scopes });
        let scope_id = ScopeId::from_usize(scopes);
        assert!(ctx.scoping().get_bindings(scope_id).is_empty());
        assert_eq!(ctx.scoping().scope_parent_id(scope_id), Some(current));
        assert_eq!(
            ctx.scoping().scope_flags(scope_id),
            ScopeFlags::Function | ScopeFlags::Constructor | ScopeFlags::StrictMode
        );
    });
}

#[test]
fn new_constructor_in_sloppy_code_is_not_strict() {
    in_function("function f() {}", |ctx| {
        let scopes = ctx.scoping().scopes_len();
        let mut t = Tc39Decorator::new(DecoratorVersion::V202203);
        let mut class = class(ClassType::ClassExpression, None);
        assert!(t.try_enter_class(&mut class, ctx));
        assert!(t.try_exit_class(&mut class, ctx));
        assert_eq!(
            ctx.scoping().scope_flags(ScopeId::from_usize(scopes)),
            ScopeFlags::Function | ScopeFlags::Constructor
        );
    });
}

#[test]
fn named_class_declaration_becomes_a_var_of_its_name() {
    in_function("function f() {}", |ctx| {
        let mut t = Tc39Decorator::new(DecoratorVersion::V202311);
        let class = class(ClassType::ClassDeclaration, Some("Foo"));
        let mut statement = Statement::ClassDeclaration(Box::new(class));
        let insertions = t.try_exit_statement(&mut statement, ctx).unwrap().unwrap();
        assert_eq!(insertions.binding.name, "Foo");
        assert_eq!(insertions.before.len(), 1);
        assert_eq!(insertions.after.len(), 1);
        let symbol = SymbolId::from_usize(insertions.binding.symbol_id);
        assert_eq!(ctx.scoping().symbol_name(symbol), "Foo");
        match statement {
            Statement::ExpressionStatement(_, Expression::AssignmentExpression(assign)) => {
                match assign.right {
                    Expression::ClassExpression(class) => {
                        assert_eq!(class.class_type, ClassType::ClassExpression);
                        assert_eq!(class.name, Some("Foo".to_string()));
                        assert_eq!(class.body.len(), 2);
                    }
                    _ => unreachable!(),
                }
            }
            _ => unreachable!(),
        }
        let mut program = Program { body: vec![Statement::Source(9)] };
        t.exit_program(&mut program);
        assert_eq!(program.body, vec![Statement::Source(9)]);
    });
}

#[test]
fn class_declaration_without_a_name_gets_a_unique_one() {
    in_function("function f() {}", |ctx| {
        let mut t = Tc39Decorator::new(DecoratorVersion::V202311);
        for expected in ["_Class", "_Class2"] {
            let class = class(ClassType::ClassDeclaration, None);
            let mut statement = Statement::ClassDeclaration(Box::new(class));
            let insertions = t.try_exit_statement(&mut statement, ctx).unwrap().unwrap();
            assert_eq!(insertions.binding.name, expected);
        }
    });
}

#[test]
fn class_declaration_that_is_no_statement_is_put_out_around_the_program() {
    in_function("function f() {}", |ctx| {
        let mut t = Tc39Decorator::new(DecoratorVersion::V202311);
        let mut class = class(ClassType::ClassDeclaration, None);
        t.transform_class(&mut class, ctx);
        assert!(t.try_exit_class(&mut class, ctx));
        let mut program = Program { body: vec![Statement::Source(9)] };
        t.exit_program(&mut program);
        assert_eq!(program.body.len(), 3);
        assert!(matches!(&program.body[0], Statement::VariableDeclaration(id, None) if id.name == "_init"));
        assert_eq!(program.body[1], Statement::Source(9));
        assert!(matches!(&program.body[2], Statement::ExpressionStatement(_, _)));
        t.exit_program(&mut program);
        assert_eq!(program.body.len(), 3);
    });
}

#[test]
fn class_decorators_wait_until_the_class_is_left() {
    in_function("function f() {}", |ctx| {
        let mut t = Tc39Decorator::new(DecoratorVersion::V202311);
        let mut class = class(ClassType::ClassExpression, None);
        class.decorators =
            vec![Decorator { span: Span { start: 0, end: 1 }, expression: Expression::Source(5) }];
        assert!(!t.has_class_decorators());
        assert!(t.try_enter_class(&mut class, ctx));
        assert!(t.has_class_decorators());
        assert!(class.decorators.is_empty());
        assert!(t.try_exit_class(&mut class, ctx));
        assert!(!t.has_class_decorators());
    });
}

#[test]
fn program_takes_what_is_pending_while_decorators_wait() {
    in_function("function f() {}", |ctx| {
        let mut t = Tc39Decorator::new(DecoratorVersion::V202311);
        let mut class = class(ClassType::ClassExpression, None);
        class.decorators =
            vec![Decorator { span: Span { start: 0, end: 1 }, expression: Expression::Source(5) }];
        assert!(t.try_enter_class(&mut class, ctx));
        let mut program = Program { body: vec![Statement::Source(9)] };
        t.leave_program(&mut program);
        assert!(t.has_class_decorators());
        assert_eq!(program.body.len(), 2);
        assert_eq!(program.body[1], Statement::Source(9));
    });
}

#[test]
fn statements_that_declare_no_decorated_class_stay() {
    in_function("function f() {}", |ctx| {
        let symbols = ctx.scoping().symbols_len();
        let mut t = Tc39Decorator::new(DecoratorVersion::V202311);
        let mut statement = Statement::Source(4);
        assert!(t.try_exit_statement(&mut statement, ctx).unwrap().is_none());
        assert_eq!(statement, Statement::Source(4));
        let plain = || Class { body: Vec::new(), ..class(ClassType::ClassDeclaration, Some("A")) };
        let mut statement = Statement::ClassDeclaration(Box::new(plain()));
        assert!(t.try_exit_statement(&mut statement, ctx).unwrap().is_none());
        assert_eq!(statement, Statement::ClassDeclaration(Box::new(plain())));
        assert_eq!(ctx.scoping().symbols_len(), symbols);
    });
}

#[test]
fn class_expression_is_the_only_argument_of_its_wrapper() {
    in_function("function f() {}", |ctx| {
        let mut t = Tc39Decorator::new(DecoratorVersion::V202203);
        let mut class = class(ClassType::ClassExpression, None);
        assert!(t.try_enter_class(&mut class, ctx));
        assert!(t.try_exit_class(&mut class, ctx));
        let mut other = Expression::Source(8);
        assert!(t.try_exit_expression(&mut other, ctx));
        assert_eq!(other, Expression::Source(8));
        let mut expression = Expression::ClassExpression(Box::new(class));
        assert!(t.try_exit_expression(&mut expression, ctx));
        let call = match expression {
            Expression::CallExpression(call) => call,
            _ => unreachable!(),
        };
        assert_eq!(call.arguments.len(), 1);
        let mut again = match call.arguments.into_iter().next() {
            Some(Argument::Expression(class)) => class,
            _ => unreachable!(),
        };
        assert!(t.try_exit_expression(&mut again, ctx));
        assert!(matches!(again, Expression::ClassExpression(_)));
        match call.callee {
            Expression::ArrowFunctionExpression(arrow) => {
                assert_eq!(arrow.params.len(), 1);
                assert_eq!(arrow.params[0].name, "_class");
                assert!(matches!(
                    arrow.body.last(),
                    Some(Statement::ReturnStatement(Expression::Identifier(id)))
                        if id.name == "_class" && id.symbol_id == arrow.params[0].symbol_id
                ));
            }
            _ => unreachable!(),
        }
    });
}

#[test]
fn expressions_are_left_alone_where_nothing_waits() {
    in_function("function f() {}", |ctx| {
        let mut t = Tc39Decorator::new(DecoratorVersion::V202311);
        let mut expression =
            Expression::ClassExpression(Box::new(class(ClassType::ClassExpression, None)));
        assert!(t.try_exit_expression(&mut expression, ctx));
        assert_eq!(
            expression,
            Expression::ClassExpression(Box::new(class(ClassType::ClassExpression, None)))
        );
    });
}

/// Checks that the identifier has this name and a reference in the table that fits it.
fn check_reference(id: &Identifier, name: &str, flags: ReferenceFlags, ctx: &TraverseCtx<'_, ()>) {
    assert_eq!(id.name, name);
    let symbol = SymbolId::from_usize(id.symbol_id.unwrap());
    let reference_id = ReferenceId::from_usize(id.reference_id.unwrap());
    let reference = ctx.scoping().get_reference(reference_id);
    assert_eq!(ctx.scoping().symbol_name(symbol), name);
    assert_eq!(reference.symbol_id(), Some(symbol));
    assert_eq!(reference.scope_id(), ctx.current_scope_id());
    assert_eq!(reference.flags(), flags);
    assert!(ctx.scoping().get_resolved_reference_ids(symbol).contains(&reference_id));
}

fn written(target: &AssignmentTarget) -> &Identifier {
    match target {
        AssignmentTarget::Identifier(id) => id,
        _ => unreachable!(),
    }
}

fn value_of(expression: &Expression) -> &Identifier {
    match expression {
        Expression::Identifier(id) => id,
        _ => unreachable!(),
    }
}

#[test]
fn references_are_in_the_table() {
    in_function("function f() {}", |ctx| {
        let mut t = Tc39Decorator::new(DecoratorVersion::V202203);
        let mut class = class(ClassType::ClassDeclaration, Some("Foo"));
        class.super_class = Some(Expression::Source(7));
        let mut statement = Statement::ClassDeclaration(Box::new(class));
        let insertions = t.try_exit_statement(&mut statement, ctx).unwrap().unwrap();

        let assign = match &insertions.before[2] {
            Statement::ExpressionStatement(_, Expression::AssignmentExpression(assign)) => assign,
            _ => unreachable!(),
        };
        let super_write = written(&assign.left);
        check_reference(super_write, "_super", ReferenceFlags::Write, ctx);

        let assign = match &statement {
            Statement::ExpressionStatement(_, Expression::AssignmentExpression(assign)) => assign,
            _ => unreachable!(),
        };
        let class_write = written(&assign.left);
        check_reference(class_write, "Foo", ReferenceFlags::Write, ctx);
        let class = match &assign.right {
            Expression::ClassExpression(class) => class,
            _ => unreachable!(),
        };
        let super_read = value_of(class.super_class.as_ref().unwrap());
        check_reference(super_read, "_super", ReferenceFlags::Read, ctx);

        let assign = match &insertions.after[0] {
            Statement::ExpressionStatement(_, Expression::AssignmentExpression(assign)) => assign,
            _ => unreachable!(),
        };
        let properties = match &assign.left {
            AssignmentTarget::Object(properties) => properties,
            _ => unreachable!(),
        };
        let elements = match &properties[0].binding {
            AssignmentTarget::Array(elements) => elements,
            _ => unreachable!(),
        };
        let init_write = written(&elements[0]);
        let proto_write = written(&elements[1]);
        check_reference(init_write, "_init", ReferenceFlags::Write, ctx);
        check_reference(proto_write, "_initProto", ReferenceFlags::Write, ctx);
        let call = match &assign.right {
            Expression::CallExpression(call) => call,
            _ => unreachable!(),
        };
        let arguments: Vec<&Expression> = call
            .arguments
            .iter()
            .map(|a| match a {
                Argument::Expression(e) => e,
                Argument::Source(_) => unreachable!(),
            })
            .collect();
        let class_read = value_of(arguments[0]);
        let super_argument = value_of(arguments[3]);
        check_reference(class_read, "Foo", ReferenceFlags::Read, ctx);
        check_reference(super_argument, "_super", ReferenceFlags::Read, ctx);

        // In the order in which they are made. The one between those for the members and those for
        // the helper reads the function that runs the initialisers.
        let first = super_write.reference_id.unwrap();
        assert_eq!(super_read.reference_id, Some(first + 1));
        assert_eq!(init_write.reference_id, Some(first + 2));
        assert_eq!(proto_write.reference_id, Some(first + 4));
        assert_eq!(class_read.reference_id, Some(first + 5));
        assert_eq!(super_argument.reference_id, Some(first + 6));
        assert_eq!(class_write.reference_id, Some(first + 7));
        let symbol = SymbolId::from_usize(insertions.binding.symbol_id);
        let next = ctx.create_bound_reference(symbol, ReferenceFlags::Read).index();
        assert_eq!(next, first + 8);
    });
}

#[test]
fn declarations_make_no_references() {
    in_function("function f() {}", |ctx| {
        let mut t = Tc39Decorator::new(DecoratorVersion::V202311);
        let mut class = class(ClassType::ClassExpression, None);
        assert!(t.try_enter_class(&mut class, ctx));
        assert!(t.try_exit_class(&mut class, ctx));
        let mut expression = Expression::ClassExpression(Box::new(class));
        assert!(t.try_exit_expression(&mut expression, ctx));
        let call = match expression {
            Expression::CallExpression(call) => call,
            _ => unreachable!(),
        };
        let arrow = match call.callee {
            Expression::ArrowFunctionExpression(arrow) => arrow,
            _ => unreachable!(),
        };
        assert_eq!(arrow.params[0].reference_id, None);
        match &arrow.body[0] {
            Statement::VariableDeclaration(id, None) => {
                assert_eq!(id.name, "_init");
                assert_eq!(id.reference_id, None);
            }
            _ => unreachable!(),
        }
        match arrow.body.last().unwrap() {
            Statement::ReturnStatement(value) => {
                check_reference(value_of(value), "_class", ReferenceFlags::Read, ctx);
            }
            _ => unreachable!(),
        }
    });
}

#[test]
fn transform_of_another_program_is_refused() {
    let mut t = Tc39Decorator::new(DecoratorVersion::V202311);
    let mut node = class(ClassType::ClassExpression, None);
    in_function("function f() { let a, b, c, d, e; }", |ctx| {
        assert!(t.try_enter_class(&mut node, ctx));
    });
    in_function("function f() {}", |ctx| {
        let symbols = ctx.scoping().symbols_len();
        assert!(!t.try_exit_class(&mut node, ctx));
        assert_eq!(ctx.scoping().symbols_len(), symbols);
    });
}
