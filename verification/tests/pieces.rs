//! The parts of the transform that need no program around them.
use tc39_decorators::ast::{
    Class, ClassElement, ClassType, Decorator, Expression, Helper, MethodDefinition,
    MethodDefinitionKind, MethodSource, Program, PropertyDefinition, PropertyKey, Span, Statement,
};
use tc39_decorators::decorator::{DecoratorVersion, Tc39Decorator};

fn later() -> Tc39Decorator {
    Tc39Decorator::new(DecoratorVersion::V202311)
}

fn earlier() -> Tc39Decorator {
    Tc39Decorator::new(DecoratorVersion::V202203)
}

fn decorator(source: usize) -> Decorator {
    Decorator { span: Span { start: 0, end: 1 }, expression: Expression::Source(source) }
}

fn class(decorators: Vec<Decorator>, body: Vec<ClassElement>) -> Class {
    Class {
        source: 0,
        class_type: ClassType::ClassExpression,
        name: None,
        decorators,
        super_class: None,
        body,
    }
}

fn method(decorators: Vec<Decorator>) -> ClassElement {
    ClassElement::MethodDefinition(MethodDefinition {
        source: MethodSource::Source(1),
        kind: MethodDefinitionKind::Method,
        is_static: false,
        decorators,
        key: PropertyKey::Other,
        body: Some(Vec::new()),
    })
}

fn property(decorators: Vec<Decorator>) -> ClassElement {
    ClassElement::PropertyDefinition(PropertyDefinition {
        source: 2,
        is_abstract: true,
        is_static: false,
        decorators,
        key: PropertyKey::Other,
        value: None,
    })
}

#[test]
fn helper_of_each_version() {
    assert_eq!(later().helper(), Helper::ApplyDecs2311);
    assert_eq!(earlier().helper(), Helper::ApplyDecs2203R);
}

#[test]
fn method_kinds_of_the_later_version() {
    let t = later();
    assert_eq!(t.method_kind_code(false, MethodDefinitionKind::Method), 2);
    assert_eq!(t.method_kind_code(true, MethodDefinitionKind::Method), 10);
    assert_eq!(t.method_kind_code(false, MethodDefinitionKind::Getter), 3);
    assert_eq!(t.method_kind_code(true, MethodDefinitionKind::Getter), 11);
    assert_eq!(t.method_kind_code(false, MethodDefinitionKind::Setter), 4);
    assert_eq!(t.method_kind_code(true, MethodDefinitionKind::Setter), 12);
    assert_eq!(t.method_kind_code(false, MethodDefinitionKind::Constructor), 0);
    assert_eq!(t.method_kind_code(true, MethodDefinitionKind::Constructor), 8);
}

#[test]
fn method_kinds_of_the_earlier_version() {
    let t = earlier();
    assert_eq!(t.method_kind_code(false, MethodDefinitionKind::Method), 2);
    assert_eq!(t.method_kind_code(true, MethodDefinitionKind::Method), 7);
    assert_eq!(t.method_kind_code(false, MethodDefinitionKind::Getter), 3);
    assert_eq!(t.method_kind_code(true, MethodDefinitionKind::Getter), 8);
    assert_eq!(t.method_kind_code(false, MethodDefinitionKind::Setter), 4);
    assert_eq!(t.method_kind_code(true, MethodDefinitionKind::Setter), 9);
    assert_eq!(t.method_kind_code(false, MethodDefinitionKind::Constructor), 0);
    assert_eq!(t.method_kind_code(true, MethodDefinitionKind::Constructor), 0);
}

#[test]
fn field_and_accessor_kinds() {
    assert_eq!(later().field_kind_code(false), 0);
    assert_eq!(later().field_kind_code(true), 8);
    assert_eq!(later().accessor_kind_code(false), 1);
    assert_eq!(later().accessor_kind_code(true), 9);
    assert_eq!(earlier().field_kind_code(false), 0);
    assert_eq!(earlier().field_kind_code(true), 5);
    assert_eq!(earlier().accessor_kind_code(false), 1);
    assert_eq!(earlier().accessor_kind_code(true), 6);
}

#[test]
fn kinds_of_one_version_are_all_different() {
    for t in [later(), earlier()] {
        let mut codes = Vec::new();
        for is_static in [false, true] {
            codes.push(t.field_kind_code(is_static));
            codes.push(t.accessor_kind_code(is_static));
            for kind in [
                MethodDefinitionKind::Method,
                MethodDefinitionKind::Getter,
                MethodDefinitionKind::Setter,
            ] {
                codes.push(t.method_kind_code(is_static, kind));
            }
        }
        codes.sort_unstable();
        codes.dedup();
        assert_eq!(codes.len(), 10);
    }
}

#[test]
fn missing_elements_become_null() {
    let array = later().build_array(vec![Some(Expression::Source(4)), None]);
    let expected = vec![Expression::Source(4), Expression::NullLiteral];
    assert_eq!(array, Expression::ArrayExpression(expected));
    assert_eq!(later().build_array(Vec::new()), Expression::ArrayExpression(Vec::new()));
}

#[test]
fn decorators_are_merged() {
    assert_eq!(Tc39Decorator::merge_decorators(Vec::new()), None);
    assert_eq!(
        Tc39Decorator::merge_decorators(vec![decorator(7)]),
        Some(Expression::Source(7))
    );
    assert_eq!(
        Tc39Decorator::merge_decorators(vec![decorator(7), decorator(8), decorator(9)]),
        Some(Expression::ArrayExpression(vec![
            Expression::Source(7),
            Expression::Source(8),
            Expression::Source(9),
        ]))
    );
}

#[test]
fn names_of_keys() {
    let name = |key: PropertyKey| Tc39Decorator::prop_key_to_expr(&key);
    let text = |s: &str| Expression::StringLiteral(s.to_string());
    assert_eq!(name(PropertyKey::StaticIdentifier("a".to_string())), text("a"));
    assert_eq!(name(PropertyKey::PrivateIdentifier("b".to_string())), text("b"));
    assert_eq!(name(PropertyKey::Other), text(""));
}

#[test]
fn decorators_are_found_anywhere_in_a_class() {
    let has = |class: Class| Tc39Decorator::has_any_decorators(&class);
    assert!(!has(class(Vec::new(), Vec::new())));
    assert!(!has(class(Vec::new(), vec![method(Vec::new()), ClassElement::Source(3)])));
    assert!(has(class(vec![decorator(1)], Vec::new())));
    assert!(has(class(Vec::new(), vec![method(Vec::new()), method(vec![decorator(1)])])));
    assert!(has(class(Vec::new(), vec![property(vec![decorator(1)])])));
}

#[test]
fn program_is_left_alone_where_nothing_is_pending() {
    let mut t = later();
    assert!(!t.has_class_decorators());
    let mut program = Program { body: vec![Statement::Source(1), Statement::Source(2)] };
    t.exit_program(&mut program);
    assert_eq!(program.body, vec![Statement::Source(1), Statement::Source(2)]);
}
