//! Whole programs, parsed and traversed for real. What the transform makes of them is printed with
//! the untouched parts cut out of the source.
use oxc_allocator::Allocator;
use oxc_ast::ast as js;
use oxc_parser::Parser;
use oxc_semantic::SemanticBuilder;
use oxc_span::{GetSpan, SourceType};
use oxc_traverse::{traverse_mut, Traverse, TraverseCtx};
use tc39_decorators::ast::{
    AccessorProperty, Argument, AssignmentTarget, CallExpression, Class, ClassElement, ClassType,
    Decorator, Expression, Function, Helper, Identifier, MethodDefinition, MethodDefinitionKind,
    MethodSource, Program, PropertyDefinition, PropertyKey, Span, Statement,
};
use tc39_decorators::decorator::visit::Insertions;
use tc39_decorators::decorator::{DecoratorVersion, Tc39Decorator};

enum Replacement {
    Expression(Expression),
    Statement(Statement, Insertions),
}

struct Harness<'s> {
    source: &'s str,
    transform: Tc39Decorator,
    /// The parts of the source that the nodes refer to by number.
    parts: Vec<(u32, u32)>,
    /// The classes that were entered, by where they start.
    classes: Vec<(u32, Class)>,
    replaced: Vec<(u32, u32, Replacement)>,
    program: Program,
}

fn span_of(span: oxc_span::Span) -> Span {
    Span { start: span.start, end: span.end }
}

fn key_of(key: &js::PropertyKey<'_>) -> PropertyKey {
    match key {
        js::PropertyKey::StaticIdentifier(id) => PropertyKey::StaticIdentifier(id.name.to_string()),
        js::PropertyKey::PrivateIdentifier(id) => {
            PropertyKey::PrivateIdentifier(id.name.to_string())
        }
        _ => PropertyKey::Other,
    }
}

fn after_decorators(start: u32, decorators: &[js::Decorator<'_>]) -> u32 {
    decorators.last().map_or(start, |d| d.span.end.max(start))
}

fn class_start(class: &js::Class<'_>) -> u32 {
    class.decorators.first().map_or(class.span.start, |d| d.span.start.min(class.span.start))
}

impl Harness<'_> {
    fn part(&mut self, start: u32, end: u32) -> usize {
        self.parts.push((start, end));
        self.parts.len() - 1
    }

    /// Whether one of the words between the decorators and the key of a member is this one.
    fn has_word(&self, start: u32, end: u32, word: &str) -> bool {
        self.source[start as usize..end as usize].split_whitespace().any(|w| w == word)
    }

    fn expression(&mut self, node: &js::Expression<'_>) -> Expression {
        let span = node.span();
        Expression::Source(self.part(span.start, span.end))
    }

    fn decorators(&mut self, nodes: &[js::Decorator<'_>]) -> Vec<Decorator> {
        nodes
            .iter()
            .map(|d| Decorator {
                span: span_of(d.span),
                expression: self.expression(&d.expression),
            })
            .collect()
    }

    fn statement(&mut self, node: &js::Statement<'_>) -> Statement {
        if let js::Statement::ExpressionStatement(statement) = node {
            if let js::Expression::CallExpression(call) = &statement.expression {
                if let js::Expression::Super(callee) = &call.callee {
                    let arguments = call
                        .arguments
                        .iter()
                        .map(|a| Argument::Source(self.part(a.span().start, a.span().end)))
                        .collect();
                    let call = CallExpression {
                        source: Some(0),
                        span: span_of(call.span),
                        callee: Expression::Super(span_of(callee.span)),
                        arguments,
                    };
                    return Statement::ExpressionStatement(
                        span_of(statement.span),
                        Expression::CallExpression(Box::new(call)),
                    );
                }
            }
        }
        let span = node.span();
        Statement::Source(self.part(span.start, span.end))
    }

    fn element(&mut self, node: &js::ClassElement<'_>) -> ClassElement {
        match node {
            js::ClassElement::MethodDefinition(method) => {
                let start = after_decorators(method.span.start, &method.decorators);
                let end = method.value.body.as_ref().map_or(method.span.end, |b| b.span.start);
                let body = method
                    .value
                    .body
                    .as_ref()
                    .map(|b| b.statements.iter().map(|s| self.statement(s)).collect());
                ClassElement::MethodDefinition(MethodDefinition {
                    source: MethodSource::Source(self.part(start, end)),
                    kind: match method.kind {
                        js::MethodDefinitionKind::Constructor => MethodDefinitionKind::Constructor,
                        js::MethodDefinitionKind::Method => MethodDefinitionKind::Method,
                        js::MethodDefinitionKind::Get => MethodDefinitionKind::Getter,
                        js::MethodDefinitionKind::Set => MethodDefinitionKind::Setter,
                    },
                    is_static: self.has_word(start, method.key.span().start, "static"),
                    decorators: self.decorators(&method.decorators),
                    key: key_of(&method.key),
                    body,
                })
            }
            js::ClassElement::PropertyDefinition(property) => {
                let start = after_decorators(property.span.start, &property.decorators);
                let end = property.value.as_ref().map_or(property.span.end, |v| v.span().start);
                ClassElement::PropertyDefinition(PropertyDefinition {
                    source: self.part(start, end),
                    is_abstract: self.has_word(start, property.key.span().start, "abstract"),
                    is_static: self.has_word(start, property.key.span().start, "static"),
                    decorators: self.decorators(&property.decorators),
                    key: key_of(&property.key),
                    value: property.value.as_ref().map(|v| self.expression(v)),
                })
            }
            js::ClassElement::AccessorProperty(accessor) => {
                let start = after_decorators(accessor.span.start, &accessor.decorators);
                let end = accessor.value.as_ref().map_or(accessor.span.end, |v| v.span().start);
                ClassElement::AccessorProperty(AccessorProperty {
                    source: self.part(start, end),
                    is_static: self.has_word(start, accessor.key.span().start, "static"),
                    decorators: self.decorators(&accessor.decorators),
                    key: key_of(&accessor.key),
                    value: accessor.value.as_ref().map(|v| self.expression(v)),
                })
            }
            other => ClassElement::Source(self.part(other.span().start, other.span().end)),
        }
    }

    fn class(&mut self, node: &js::Class<'_>) -> Class {
        Class {
            source: self.part(class_start(node), node.span.end),
            class_type: if node.is_declaration() {
                ClassType::ClassDeclaration
            } else {
                ClassType::ClassExpression
            },
            name: node.id.as_ref().map(|id| id.name.to_string()),
            decorators: self.decorators(&node.decorators),
            super_class: node.super_class.as_ref().map(|e| self.expression(e)),
            body: node.body.body.iter().map(|m| self.element(m)).collect(),
        }
    }

    /// Takes out the class that starts here.
    fn take_class(&mut self, start: u32) -> Class {
        let at = self.classes.iter().position(|(s, _)| *s == start).unwrap();
        self.classes.remove(at).1
    }

    fn print_slice(&self, start: u32, end: u32) -> String {
        let mut text = String::new();
        let mut at = start;
        while at < end {
            let next = self
                .replaced
                .iter()
                .filter(|(s, e, _)| *s >= at && *e <= end)
                .min_by_key(|(s, e, _)| (*s, u32::MAX - *e));
            match next {
                Some((s, e, replacement)) => {
                    text.push_str(&self.source[at as usize..*s as usize]);
                    text.push_str(&match replacement {
                        Replacement::Expression(e) => self.print_expression(e),
                        Replacement::Statement(statement, insertions) => {
                            let mut lines = self.print_statements(&insertions.before);
                            lines.push(self.print_statement(statement));
                            lines.extend(self.print_statements(&insertions.after));
                            lines.join(" ")
                        }
                    });
                    at = *e;
                }
                None => {
                    text.push_str(&self.source[at as usize..end as usize]);
                    at = end;
                }
            }
        }
        text.trim().to_string()
    }

    fn print_part(&self, part: usize) -> String {
        self.print_slice(self.parts[part].0, self.parts[part].1)
    }

    fn print_list(&self, list: &[Expression]) -> String {
        list.iter().map(|e| self.print_expression(e)).collect::<Vec<_>>().join(", ")
    }

    fn print_params(params: &[Identifier]) -> String {
        params.iter().map(|p| p.name.clone()).collect::<Vec<_>>().join(", ")
    }

    fn print_body(&self, body: &[Statement]) -> String {
        format!("{{ {} }}", self.print_statements(body).join(" "))
    }

    fn print_function(&self, function: &Function) -> String {
        format!("({}) {}", Self::print_params(&function.params), self.print_body(&function.body))
    }

    fn print_expression(&self, expression: &Expression) -> String {
        match expression {
            Expression::Source(part) => self.print_part(*part),
            Expression::NullLiteral => "null".to_string(),
            Expression::NumericLiteral(n) => n.to_string(),
            Expression::StringLiteral(s) => format!("'{s}'"),
            Expression::ThisExpression => "this".to_string(),
            Expression::Super(_) => "super".to_string(),
            Expression::Helper(Helper::ApplyDecs2311) => "babelHelpers.applyDecs2311".to_string(),
            Expression::Helper(Helper::ApplyDecs2203R) => "babelHelpers.applyDecs2203R".to_string(),
            Expression::Identifier(id) => id.name.clone(),
            Expression::ArrayExpression(elements) => format!("[{}]", self.print_list(elements)),
            Expression::SequenceExpression(list) => format!("({})", self.print_list(list)),
            Expression::CallExpression(call) => {
                let arguments = call
                    .arguments
                    .iter()
                    .map(|a| match a {
                        Argument::Source(part) => self.print_part(*part),
                        Argument::Expression(e) => self.print_expression(e),
                    })
                    .collect::<Vec<_>>()
                    .join(", ");
                let callee = self.print_expression(&call.callee);
                match call.callee {
                    Expression::ArrowFunctionExpression(_) => format!("({callee})({arguments})"),
                    _ => format!("{callee}({arguments})"),
                }
            }
            Expression::AssignmentExpression(assign) => format!(
                "{} = {}",
                self.print_target(&assign.left),
                self.print_expression(&assign.right)
            ),
            Expression::FunctionExpression(function) => {
                format!("function{}", self.print_function(function))
            }
            Expression::ArrowFunctionExpression(function) => format!(
                "({}) => {}",
                Self::print_params(&function.params),
                self.print_body(&function.body)
            ),
            Expression::PrivateFieldExpression(field) => {
                format!("{}.#{}", self.print_expression(&field.object), field.field)
            }
            Expression::PrivateInExpression(test) => {
                format!("#{} in {}", test.left, self.print_expression(&test.right))
            }
            Expression::ClassExpression(class) => self.print_class(class),
            Expression::CloneIn(inner) => self.print_expression(inner),
        }
    }

    fn print_target(&self, target: &AssignmentTarget) -> String {
        match target {
            AssignmentTarget::Identifier(id) => id.name.clone(),
            AssignmentTarget::PrivateField(field) => {
                format!("{}.#{}", self.print_expression(&field.object), field.field)
            }
            AssignmentTarget::Array(targets) => format!(
                "[{}]",
                targets.iter().map(|t| self.print_target(t)).collect::<Vec<_>>().join(", ")
            ),
            AssignmentTarget::Object(properties) => format!(
                "{{ {} }}",
                properties
                    .iter()
                    .map(|p| format!("{}: {}", p.key, self.print_target(&p.binding)))
                    .collect::<Vec<_>>()
                    .join(", ")
            ),
        }
    }

    fn print_statements(&self, statements: &[Statement]) -> Vec<String> {
        statements.iter().map(|s| self.print_statement(s)).collect()
    }

    fn print_statement(&self, statement: &Statement) -> String {
        match statement {
            Statement::Source(part) => self.print_part(*part),
            Statement::ExpressionStatement(_, expression) => {
                let text = self.print_expression(expression);
                if text.starts_with('{') {
                    format!("({text});")
                } else {
                    format!("{text};")
                }
            }
            Statement::ReturnStatement(e) => format!("return {};", self.print_expression(e)),
            Statement::VariableDeclaration(id, None) => format!("var {};", id.name),
            Statement::VariableDeclaration(id, Some(init)) => {
                format!("var {} = {};", id.name, self.print_expression(init))
            }
            Statement::ClassDeclaration(class) => self.print_class(class),
        }
    }

    fn print_value(&self, head: usize, value: &Option<Expression>) -> String {
        let head = self.print_part(head);
        let head = head.trim_end_matches([' ', '=', ';']);
        match value {
            Some(value) => format!("{head} = {};", self.print_expression(value)),
            None => format!("{head};"),
        }
    }

    fn print_class(&self, class: &Class) -> String {
        let mut text = "class".to_string();
        if let Some(name) = &class.name {
            text.push(' ');
            text.push_str(name);
        }
        if let Some(super_class) = &class.super_class {
            text.push_str(" extends ");
            text.push_str(&self.print_expression(super_class));
        }
        text.push_str(" {");
        for member in &class.body {
            text.push(' ');
            text.push_str(&match member {
                ClassElement::Source(part) => self.print_part(*part),
                ClassElement::MethodDefinition(method) => {
                    let head = match method.source {
                        MethodSource::Source(part) => self.print_part(part),
                        MethodSource::Created { .. } => "constructor()".to_string(),
                    };
                    match &method.body {
                        Some(body) => format!("{head} {}", self.print_body(body)),
                        None => head,
                    }
                }
                ClassElement::PropertyDefinition(p) => self.print_value(p.source, &p.value),
                ClassElement::AccessorProperty(a) => self.print_value(a.source, &a.value),
            });
        }
        text.push_str(" }");
        text
    }

    fn print_program(&self) -> String {
        let mut lines = Vec::new();
        for (_, _, replacement) in &self.replaced {
            if let Replacement::Statement(_, insertions) = replacement {
                lines.push(format!("var {};", insertions.binding.name));
            }
        }
        lines.extend(self.print_statements(&self.program.body));
        lines.join("\n")
    }
}

impl<'a> Traverse<'a, ()> for Harness<'_> {
    fn enter_class(&mut self, node: &mut js::Class<'a>, ctx: &mut TraverseCtx<'a, ()>) {
        let mut class = self.class(node);
        assert!(self.transform.try_enter_class(&mut class, ctx));
        self.classes.push((class_start(node), class));
    }

    fn exit_class(&mut self, node: &mut js::Class<'a>, ctx: &mut TraverseCtx<'a, ()>) {
        let start = class_start(node);
        let mut class = self.take_class(start);
        assert!(self.transform.try_exit_class(&mut class, ctx));
        self.classes.push((start, class));
    }

    fn exit_expression(&mut self, node: &mut js::Expression<'a>, ctx: &mut TraverseCtx<'a, ()>) {
        if let js::Expression::ClassExpression(class) = node {
            let start = class_start(class);
            let mut expression = Expression::ClassExpression(Box::new(self.take_class(start)));
            assert!(self.transform.try_exit_expression(&mut expression, ctx));
            self.replaced.push((start, class.span.end, Replacement::Expression(expression)));
        }
    }

    fn exit_statement(&mut self, node: &mut js::Statement<'a>, ctx: &mut TraverseCtx<'a, ()>) {
        if let js::Statement::ClassDeclaration(class) = node {
            let start = class_start(class);
            let mut statement = Statement::ClassDeclaration(Box::new(self.take_class(start)));
            let insertions = self.transform.try_exit_statement(&mut statement, ctx).unwrap();
            if let Some(insertions) = insertions {
                let replacement = Replacement::Statement(statement, insertions);
                self.replaced.push((start, class.span.end, replacement));
            }
        }
    }

    fn exit_program(&mut self, node: &mut js::Program<'a>, _ctx: &mut TraverseCtx<'a, ()>) {
        let mut body = Vec::new();
        for statement in &node.body {
            let mut start = statement.span().start;
            if let js::Statement::ClassDeclaration(class) = statement {
                start = class_start(class);
            }
            let part = self.part(start, statement.span().end);
            body.push(Statement::Source(part));
        }
        self.program = Program { body };
        self.transform.exit_program(&mut self.program);
    }
}

fn transform_as(
    source: &str,
    version: DecoratorVersion,
    source_type: SourceType,
) -> Result<String, String> {
    let allocator = Allocator::default();
    let ret = Parser::new(&allocator, source, source_type).parse();
    if !ret.errors.is_empty() {
        return Err(format!("Parse errors: {:?}", ret.errors));
    }
    let mut program = ret.program;
    let scoping = SemanticBuilder::new().build(&program).semantic.into_scoping();
    let mut harness = Harness {
        source,
        transform: Tc39Decorator::new(version),
        parts: Vec::new(),
        classes: Vec::new(),
        replaced: Vec::new(),
        program: Program { body: Vec::new() },
    };
    traverse_mut(&mut harness, &allocator, &mut program, scoping, ());
    Ok(harness.print_program())
}

fn transform(source: &str, version: DecoratorVersion) -> Result<String, String> {
    transform_as(source, version, SourceType::mjs())
}

#[test]
fn class_declaration_without_decorators() {
    let result = transform("class Foo {}", DecoratorVersion::V202311).unwrap();
    assert!(result.contains("class Foo"));
}

#[test]
fn class_expression_without_decorators() {
    let result = transform("const x = class {}", DecoratorVersion::V202311).unwrap();
    assert!(result.contains("class"));
}

#[test]
fn decorated_class_declaration_202311() {
    let result = transform("@dec class Foo {}", DecoratorVersion::V202311).unwrap();
    assert!(result.contains("Foo"), "Expected 'Foo' in output, got: {result}");
}

#[test]
fn decorated_class_expression_202311() {
    let result = transform("const x = @dec class {}", DecoratorVersion::V202311).unwrap();
    assert!(result.contains("=>"), "Expected IIFE arrow in output, got: {result}");
    assert!(result.contains("applyDecs"), "Expected applyDecs, got: {result}");
}

#[test]
fn decorated_class_declaration_202203() {
    let result = transform("@dec class Foo {}", DecoratorVersion::V202203).unwrap();
    let pass = result.contains("_Foo = class")
        || result.contains("var Foo")
        || result.contains("var _Class");
    assert!(pass, "Expected class assignment in output, got: {result}");
}

#[test]
fn multiple_decorators() {
    let result = transform("@dec1 @dec2 class Foo {}", DecoratorVersion::V202311).unwrap();
    let pass = result.contains("_Foo = class")
        || result.contains("var Foo")
        || result.contains("var _Class");
    assert!(pass, "Expected class assignment in output, got: {result}");
}

#[test]
fn decorated_method_202311() {
    let result = transform("class Foo { @dec bar() {} }", DecoratorVersion::V202311).unwrap();
    assert!(result.contains("Foo"));
}

#[test]
fn decorated_field_202311() {
    let result = transform("class Foo { @dec x = 1; }", DecoratorVersion::V202311).unwrap();
    assert!(result.contains("Foo"));
}

#[test]
fn decorated_get_set_202311() {
    let result =
        transform("class Foo { @dec get x() {} @dec set x(v) {} }", DecoratorVersion::V202311)
            .unwrap();
    assert!(result.contains("Foo"));
}

#[test]
fn decorated_class_with_accessor() {
    let result =
        transform("class Foo { @dec accessor x = 1; }", DecoratorVersion::V202311).unwrap();
    assert!(result.contains("Foo"));
}

#[test]
fn decorated_class_with_static_method() {
    let result =
        transform("class Foo { @dec static bar() {} }", DecoratorVersion::V202311).unwrap();
    assert!(result.contains("Foo"));
}

#[test]
fn decorator_no_panic_on_empty_body() {
    let result = transform("@dec class Foo {}", DecoratorVersion::V202311).unwrap();
    let pass = result.contains("_Foo = class")
        || result.contains("var Foo")
        || result.contains("var _Class");
    assert!(pass, "Expected class assignment in output, got: {result}");
}

#[test]
fn decorated_class_is_assigned_and_decorated_after() {
    let result = transform("@dec class Foo {}", DecoratorVersion::V202311).unwrap();
    assert_eq!(result, ["var Foo;", "Foo = class Foo { }; ({ c: [Foo] } = babelHelpers.applyDecs2311(Foo, [dec], []));"].join("\n"));
    let result = transform("@dec class Foo {}", DecoratorVersion::V202203).unwrap();
    assert_eq!(result, ["var Foo;", "Foo = class Foo { }; ({ c: [Foo] } = babelHelpers.applyDecs2203R(Foo, [], [dec]));"].join("\n"));
}

#[test]
fn class_decorators_keep_their_order() {
    let result = transform("@dec1 @dec2 class Foo {}", DecoratorVersion::V202311).unwrap();
    assert_eq!(result, ["var Foo;", "Foo = class Foo { }; ({ c: [Foo] } = babelHelpers.applyDecs2311(Foo, [dec1, dec2], []));"].join("\n"));
}

#[test]
fn decorated_method_runs_initializers_in_a_new_constructor() {
    let result = transform("class Foo { @dec bar() {} }", DecoratorVersion::V202311).unwrap();
    assert_eq!(result, ["var Foo;", "var _init; Foo = class Foo { constructor() { _initProto(this); } bar() {  } }; ({ e: [_init, _initProto] } = babelHelpers.applyDecs2311(Foo, [], [[dec, 2, 'bar']]));"].join("\n"));
    let result = transform("class Foo { @dec bar() {} }", DecoratorVersion::V202203).unwrap();
    assert_eq!(result, ["var Foo;", "var _init; Foo = class Foo { constructor() { _initProto(this); } bar() {  } }; ({ e: [_init, _initProto] } = babelHelpers.applyDecs2203R(Foo, [[dec, 2, 'bar']], []));"].join("\n"));
}

#[test]
fn decorated_field_needs_no_initializer_in_the_later_version() {
    let result = transform("class Foo { @dec x = 1; }", DecoratorVersion::V202311).unwrap();
    assert_eq!(result, ["var Foo;", "var _init; Foo = class Foo { x = 1; }; ({ e: [_init] } = babelHelpers.applyDecs2311(Foo, [], [[dec, 0, 'x']]));"].join("\n"));
    let result = transform("class Foo { @dec x = 1; }", DecoratorVersion::V202203).unwrap();
    assert_eq!(result, ["var Foo;", "var _init; Foo = class Foo { constructor() { _initProto(this); } x = 1; }; ({ e: [_init, _initProto] } = babelHelpers.applyDecs2203R(Foo, [[dec, 0, 'x']], []));"].join("\n"));
}

#[test]
fn static_initializers_run_after_the_class() {
    let result = transform("class Foo { @dec static bar() {} }", DecoratorVersion::V202311).unwrap();
    assert_eq!(result, ["var Foo;", "var _init; Foo = class Foo { static bar() {  } }; ({ e: [_init, _initStatic] } = babelHelpers.applyDecs2311(Foo, [], [[dec, 10, 'bar']])); _initStatic(Foo);"].join("\n"));
    let result = transform("class Foo { @dec static x; }", DecoratorVersion::V202203).unwrap();
    assert_eq!(result, ["var Foo;", "var _init; Foo = class Foo { static x; }; ({ e: [_init, _initStatic] } = babelHelpers.applyDecs2203R(Foo, [[dec, 5, 'x']], [])); _initStatic(Foo);"].join("\n"));
}

#[test]
fn initializers_run_with_the_first_instance_value() {
    let result = transform("class Foo { static s = 0; @dec accessor x = 1; y = 2; constructor() {} }", DecoratorVersion::V202311).unwrap();
    assert_eq!(result, ["var Foo;", "var _init; Foo = class Foo { static s = 0; accessor x = (_initProto(this), 1); y = 2; constructor() {  } }; ({ e: [_init, _initProto] } = babelHelpers.applyDecs2311(Foo, [], [[dec, 1, 'x']]));"].join("\n"));
    let result = transform("class Foo { @dec m() {} n; y = 2; }", DecoratorVersion::V202311).unwrap();
    assert_eq!(result, ["var Foo;", "var _init; Foo = class Foo { m() {  } n; y = (_initProto(this), 2); }; ({ e: [_init, _initProto] } = babelHelpers.applyDecs2311(Foo, [], [[dec, 2, 'm']]));"].join("\n"));
    let result = transform("class Foo { @dec accessor x = 1; constructor() { a; } }", DecoratorVersion::V202203).unwrap();
    assert_eq!(result, ["var Foo;", "var _init; Foo = class Foo { accessor x = 1; constructor() { _initProto(this); a; } }; ({ e: [_init, _initProto] } = babelHelpers.applyDecs2203R(Foo, [[dec, 1, 'x']], []));"].join("\n"));
}

#[test]
fn initializers_run_after_the_first_super_call() {
    let result = transform("class Foo extends Base { constructor(a) { a; super(a, ...b); c; super(); } @dec m() {} }", DecoratorVersion::V202311).unwrap();
    assert_eq!(result, ["var Foo;", "var _super; var _init; _super = Base; Foo = class Foo extends _super { constructor(a) { a; super(a, ...b); _initProto(this); c; super(); } m() {  } }; ({ e: [_init, _initProto] } = babelHelpers.applyDecs2311(Foo, [], [[dec, 2, 'm']], 0, undefined, _super));"].join("\n"));
    let result = transform("class Foo extends Base { constructor() { f(() => super()); } @dec m() {} }", DecoratorVersion::V202203).unwrap();
    assert_eq!(result, ["var Foo;", "var _super; var _init; _super = Base; Foo = class Foo extends _super { constructor() { _initProto(this); f(() => super()); } m() {  } }; ({ e: [_init, _initProto] } = babelHelpers.applyDecs2203R(Foo, [[dec, 2, 'm']], [], _super));"].join("\n"));
}

#[test]
fn new_constructor_of_a_derived_class_calls_super() {
    let result = transform("class Foo extends Base { @dec m() {} }", DecoratorVersion::V202311).unwrap();
    assert_eq!(result, ["var Foo;", "var _super; var _init; _super = Base; Foo = class Foo extends _super { constructor() { super(); _initProto(this); } m() {  } }; ({ e: [_init, _initProto] } = babelHelpers.applyDecs2311(Foo, [], [[dec, 2, 'm']], 0, undefined, _super));"].join("\n"));
}

#[test]
fn private_field_comes_with_access_functions() {
    let result = transform("class Foo { @dec #x = 1; }", DecoratorVersion::V202311).unwrap();
    assert_eq!(result, ["var Foo;", "var _init; Foo = class Foo { #x = 1; }; ({ e: [_init] } = babelHelpers.applyDecs2311(Foo, [], [[dec, 0, 'x', function(_this) { return _this.#x; }, function(_this, _v) { _this.#x = _v; }]]));"].join("\n"));
    let result = transform("class Foo { @dec static #x = 1; }", DecoratorVersion::V202203).unwrap();
    assert_eq!(result, ["var Foo;", "var _init; Foo = class Foo { static #x = 1; }; ({ e: [_init, _initStatic] } = babelHelpers.applyDecs2203R(Foo, [[dec, 5, 'x', function() { return this.#x; }, function(_v) { this.#x = _v; }]], [])); _initStatic(Foo);"].join("\n"));
}

#[test]
fn private_accessor_comes_with_two_empty_places() {
    let result = transform("class Foo { @dec static accessor #x; static { } }", DecoratorVersion::V202311).unwrap();
    assert_eq!(result, ["var Foo;", "var _init; Foo = class Foo { static accessor #x; static { } }; ({ e: [_init, _initStatic] } = babelHelpers.applyDecs2311(Foo, [], [[dec, 9, 'x', null, null]])); _initStatic(Foo);"].join("\n"));
}

#[test]
fn private_method_comes_without_access_functions() {
    let result = transform("class Foo { @dec #m() {} }", DecoratorVersion::V202311).unwrap();
    assert_eq!(result, ["var Foo;", "var _init; Foo = class Foo { constructor() { _initProto(this); } #m() {  } }; ({ e: [_init, _initProto] } = babelHelpers.applyDecs2311(Foo, [], [[dec, 2, 'm']]));"].join("\n"));
}

#[test]
fn several_decorators_of_a_member_become_an_array() {
    let result = transform("class Foo { @d1 @d2() @(d3) set x(v) {} }", DecoratorVersion::V202311).unwrap();
    assert_eq!(result, ["var Foo;", "var _init; Foo = class Foo { constructor() { _initProto(this); } set x(v) {  } }; ({ e: [_init, _initProto] } = babelHelpers.applyDecs2311(Foo, [], [[[d1, d2(), (d3)], 4, 'x']]));"].join("\n"));
}

#[test]
fn keys_that_are_no_identifiers_have_no_name() {
    let result = transform("class Foo { @a [k]() {} @b 'str'() {} @c 1() {} }", DecoratorVersion::V202203).unwrap();
    assert_eq!(result, ["var Foo;", "var _init; var _init2; var _init3; Foo = class Foo { constructor() { _initProto(this); } [k]() {  } 'str'() {  } 1() {  } }; ({ e: [_init, _init2, _init3, _initProto] } = babelHelpers.applyDecs2203R(Foo, [[a, 2, ''], [b, 2, ''], [c, 2, '']], []));"].join("\n"));
}

#[test]
fn members_are_grouped_in_the_result() {
    let result = transform("class Foo { @a f; @b static g; @c m() {} @d static n() {} }", DecoratorVersion::V202311).unwrap();
    assert_eq!(result, ["var Foo;", "var _init; var _init2; var _init3; var _init4; Foo = class Foo { constructor() { _initProto(this); } f; static g; m() {  } static n() {  } }; ({ e: [_init4, _init3, _init2, _init, _initProto, _initStatic] } = babelHelpers.applyDecs2311(Foo, [], [[b, 8, 'g'], [d, 10, 'n'], [a, 0, 'f'], [c, 2, 'm']])); _initStatic(Foo);"].join("\n"));
}

#[test]
fn names_of_the_program_are_kept_clear_of() {
    let result = transform("let _init = 1, _initProto, __super; class Foo extends Base { @dec m() {} }", DecoratorVersion::V202203).unwrap();
    assert_eq!(result, ["var Foo;", "let _init = 1, _initProto, __super;", "var __super2; var _init2; __super2 = Base; Foo = class Foo extends __super2 { constructor() { super(); _initProto2(this); } m() {  } }; ({ e: [_init2, _initProto2] } = babelHelpers.applyDecs2203R(Foo, [[dec, 2, 'm']], [], __super2));"].join("\n"));
}

#[test]
fn decorated_class_expression_is_wrapped() {
    let result = transform("const x = @dec class Foo {};", DecoratorVersion::V202311).unwrap();
    assert_eq!(result, "const x = ((_class) => { ({ c: [_class] } = babelHelpers.applyDecs2311(_class, [dec], [])); return _class; })(class Foo { });");
    let result = transform("const x = class extends Base { @dec static m() {} };", DecoratorVersion::V202203).unwrap();
    assert_eq!(result, "const x = ((_class) => { var _super; var _init; _super = Base; ({ e: [_init, _initStatic] } = babelHelpers.applyDecs2203R(_class, [[dec, 7, 'm']], [], _super)); _initStatic(_class); return _class; })(class extends _super { static m() {  } });");
}

#[test]
fn class_expression_with_decorated_fields_only() {
    let result = transform("x = class { @dec f = 1 };", DecoratorVersion::V202311).unwrap();
    assert_eq!(result, ["var _init;", "x = class { f = 1; };"].join("\n"));
    let result = transform("x = class { @dec f = 1 };", DecoratorVersion::V202203).unwrap();
    assert_eq!(result, "x = ((_class) => { var _init; ({ e: [_init, _initProto] } = babelHelpers.applyDecs2203R(_class, [[dec, 0, 'f']], [])); return _class; })(class { constructor() { _initProto(this); } f = 1; });");
}

#[test]
fn decorated_class_in_a_block() {
    let result = transform("{ @dec class Foo {} }", DecoratorVersion::V202311).unwrap();
    assert_eq!(result, ["var Foo;", "{ Foo = class Foo { }; ({ c: [Foo] } = babelHelpers.applyDecs2311(Foo, [dec], [])); }"].join("\n"));
}

#[test]
fn decorated_class_in_a_decorated_class() {
    let result = transform("@dec class Outer { m() { return @inner class { @p q() {} } } }", DecoratorVersion::V202311).unwrap();
    assert_eq!(result, ["var Outer;", "Outer = class Outer { m() { return ((_class) => { var _init; ({ e: [_init, _initProto], c: [_class] } = babelHelpers.applyDecs2311(_class, [inner], [[p, 2, 'q']])); return _class; })(class { constructor() { _initProto(this); } q() {  } }) } }; ({ c: [Outer] } = babelHelpers.applyDecs2311(Outer, [dec], []));"].join("\n"));
}

#[test]
fn inner_class_expression_is_put_out_for_the_outer_one() {
    let result = transform("x = @dec class { m() { return class {} } }", DecoratorVersion::V202311).unwrap();
    assert_eq!(result, "x = class { m() { return ((_class) => { ({ c: [_class] } = babelHelpers.applyDecs2311(_class, [dec], [])); return _class; })(class { }) } }");
}

#[test]
fn superclass_variable_outlives_its_class() {
    let result = transform("@a class A extends B {} @c class C {}", DecoratorVersion::V202203).unwrap();
    assert_eq!(result, ["var A;", "var C;", "var _super; _super = B; A = class A extends _super { }; ({ c: [A] } = babelHelpers.applyDecs2203R(A, [], [a], _super));", "C = class C { }; ({ c: [C] } = babelHelpers.applyDecs2203R(C, [], [c], _super));"].join("\n"));
}

#[test]
fn undecorated_classes_stay() {
    let result = transform("class A { m() {} static { } } f(class B extends A {})", DecoratorVersion::V202311).unwrap();
    assert_eq!(result, ["class A { m() {} static { } }", "f(class B extends A { })"].join("\n"));
}

#[test]
fn abstract_properties_keep_their_decorators() {
    let source = "abstract class Foo { @a abstract x: number; @b m(): void {} }";
    let result = transform_as(source, DecoratorVersion::V202311, SourceType::ts()).unwrap();
    assert_eq!(
        result,
        [
            "var Foo;",
            "var _init; Foo = class Foo { constructor() { _initProto(this); } abstract x: number; m(): void {  } }; ({ e: [_init, _initProto] } = babelHelpers.applyDecs2311(Foo, [], [[b, 2, 'm']]));",
        ]
        .join("\n")
    );
}

#[test]
fn overload_signature_of_a_constructor_stays() {
    let source = "class Foo { constructor(a: string); constructor(a: any) { b; } @dec m() {} }";
    let result = transform_as(source, DecoratorVersion::V202203, SourceType::ts()).unwrap();
    assert_eq!(
        result,
        [
            "var Foo;",
            "var _init; Foo = class Foo { constructor(a: string); constructor(a: any) { b; } m() {  } }; ({ e: [_init, _initProto] } = babelHelpers.applyDecs2203R(Foo, [[dec, 2, 'm']], []));",
        ]
        .join("\n")
    );
}
