use noir_analyzer::ast::analyzer::Analyzer;
use noir_analyzer::ast::tree::{
    CallExpression, Expression, ExpressionKind, FunctionDefinition, Item, ItemKind,
    ItemVisibility, ParsedModule, Path, PathKind, Statement, StatementKind,
};
use noir_analyzer::diagnostics::lint::{Lint, Severity, Span};
use noir_analyzer::lints::lint_rule::LintRule;
use noir_analyzer::lints::unused_function::UnusedFunction;

fn span(start: u32, end: u32) -> Span {
    Span::from_range(start, end)
}

/// The statement `name()` at `at`.
fn call_statement(name: &str, at: Span) -> Statement {
    let callee = Expression {
        kind: ExpressionKind::Variable(Path {
            segments: vec![name.to_string()],
            kind: PathKind::Plain,
            span: at,
        }),
        span: at,
    };
    let call = CallExpression { func: Box::new(callee), arguments: vec![], is_macro_call: false };
    Statement {
        kind: StatementKind::Expression(Expression {
            kind: ExpressionKind::Call(Box::new(call)),
            span: at,
        }),
        span: at,
    }
}

/// The item `fn name() { body }` whose diagnostics point at `at`.
fn function(name: &str, visibility: ItemVisibility, at: Span, body: Vec<Statement>) -> Item {
    Item {
        kind: ItemKind::Function(FunctionDefinition {
            name: name.to_string(),
            span: at,
            visibility,
            body,
        }),
        span: at,
    }
}

#[test]
fn test_unused_function_can_be_created() {
    let lint = UnusedFunction;
    assert_eq!(lint.name(), "unused-function");
}

#[test]
fn test_analyzer_with_lint_doesnt_mark_pub_function_unused() {
    let lint: Box<dyn LintRule> = Box::new(UnusedFunction);

    // pub fn foo() {}
    let root = ParsedModule {
        items: vec![function("foo", ItemVisibility::Public, span(26, 28), vec![])],
    };

    let mut analyzer = Analyzer::new(vec![lint]);

    let result = analyzer.analyze(&root).expect("Should have passed");

    assert!(result.is_empty());
}

#[test]
fn test_analyzer_with_lint_marks_private_function_unused() {
    let lint: Box<dyn LintRule> = Box::new(UnusedFunction);

    // fn foo() {}
    let root = ParsedModule {
        items: vec![function("foo", ItemVisibility::Private, span(22, 24), vec![])],
    };

    let mut analyzer = Analyzer::new(vec![lint]);

    let result = analyzer.analyze(&root).expect("Should have passed");

    assert_eq!(result.len(), 1);

    assert_eq!(
        result[0],
        Lint {
            name: "unused-function",
            severity: Severity::Warning,
            description: "Function 'foo' is unused".to_string(),
            span: Some(span(22, 24)),
        }
    );
}

#[test]
fn test_analyzer_with_lint_doesnt_mark_private_function_unused_if_called() {
    let lint: Box<dyn LintRule> = Box::new(UnusedFunction);

    // fn foo() {}
    // pub fn bar() { foo() }
    let root = ParsedModule {
        items: vec![
            function("foo", ItemVisibility::Private, span(22, 24), vec![]),
            function(
                "bar",
                ItemVisibility::Public,
                span(50, 59),
                vec![call_statement("foo", span(52, 57))],
            ),
        ],
    };

    let mut analyzer = Analyzer::new(vec![lint]);

    let result = analyzer.analyze(&root).expect("Should have passed");

    assert_eq!(result.len(), 0);
}

#[test]
fn test_analyzer_with_lint_with_larger_example_works_correctly() {
    let lint: Box<dyn LintRule> = Box::new(UnusedFunction);

    // fn private_fn_1() { }
    // fn private_fn_2() { }
    // pub(crate) fn crate_fn_1() { }
    // pub(crate) fn crate_fn_2() { }
    // pub fn public_fn_1() { private_fn_1() }
    // pub fn public_fn_2() { public_fn_1() }
    // pub fn public_fn_3() { crate_fn_1() }
    let root = ParsedModule {
        items: vec![
            function("private_fn_1", ItemVisibility::Private, span(31, 34), vec![]),
            function("private_fn_2", ItemVisibility::Private, span(65, 68), vec![]),
            function("crate_fn_1", ItemVisibility::PublicCrate, span(108, 111), vec![]),
            function("crate_fn_2", ItemVisibility::PublicCrate, span(151, 154), vec![]),
            function(
                "public_fn_1",
                ItemVisibility::Public,
                span(188, 206),
                vec![call_statement("private_fn_1", span(190, 204))],
            ),
            function(
                "public_fn_2",
                ItemVisibility::Public,
                span(240, 257),
                vec![call_statement("public_fn_1", span(242, 255))],
            ),
            function(
                "public_fn_3",
                ItemVisibility::Public,
                span(291, 307),
                vec![call_statement("crate_fn_1", span(293, 305))],
            ),
        ],
    };

    let mut analyzer = Analyzer::new(vec![lint]);

    let mut result = analyzer.analyze(&root).expect("Should have passed");

    assert_eq!(result.len(), 2);

    result.sort_by(|a, b| a.span.unwrap().start().cmp(&b.span.unwrap().start()));

    assert_eq!(
        result[0],
        Lint {
            name: "unused-function",
            severity: Severity::Warning,
            description: "Function 'private_fn_2' is unused".to_string(),
            span: Some(span(65, 68)),
        }
    );

    assert_eq!(
        result[1],
        Lint {
            name: "unused-function",
            severity: Severity::Warning,
            description: "Function 'crate_fn_2' is unused".to_string(),
            span: Some(span(151, 154)),
        }
    );
}

#[test]
fn description_names_the_function() {
    assert_eq!(UnusedFunction::description("foo"), "Function 'foo' is unused");
    assert_eq!(UnusedFunction::description(""), "Function '' is unused");
    assert_eq!(UnusedFunction::description("a'b"), "Function 'a'b' is unused");
}

#[test]
fn boxed_clone_is_the_same_rule() {
    let rule: Box<dyn LintRule> = UnusedFunction.boxed_clone();
    assert_eq!(rule.name(), "unused-function");
    let root = ParsedModule {
        items: vec![function("foo", ItemVisibility::Private, span(3, 6), vec![])],
    };
    let mut analyzer = Analyzer::new(vec![rule]);
    let mut other = Analyzer::new(vec![Box::new(UnusedFunction)]);
    assert_eq!(analyzer.analyze(&root).unwrap(), other.analyze(&root).unwrap());
}

#[test]
fn default_rule_is_the_rule() {
    assert_eq!(UnusedFunction::default().name(), "unused-function");
}

#[test]
fn public_function_is_exempt_whatever_is_called() {
    for body in [vec![], vec![call_statement("other", span(0, 0))], vec![call_statement("foo", span(0, 0))]] {
        let root = ParsedModule {
            items: vec![
                function("foo", ItemVisibility::Public, span(3, 6), vec![]),
                function("caller", ItemVisibility::Public, span(13, 19), body),
            ],
        };
        let mut analyzer = Analyzer::new(vec![Box::new(UnusedFunction)]);
        assert!(analyzer.analyze(&root).unwrap().is_empty());
    }
}

#[test]
fn crate_visible_function_is_reported_like_a_private_one() {
    let root = ParsedModule {
        items: vec![function("foo", ItemVisibility::PublicCrate, span(3, 6), vec![])],
    };
    let mut analyzer = Analyzer::new(vec![Box::new(UnusedFunction)]);
    let result = analyzer.analyze(&root).unwrap();
    assert_eq!(
        result,
        vec![Lint {
            name: "unused-function",
            severity: Severity::Warning,
            description: "Function 'foo' is unused".to_string(),
            span: Some(span(3, 6)),
        }]
    );
}

#[test]
fn call_from_any_function_suppresses_the_finding() {
    // The call may come from a private function, from a later function, or
    // from the function itself.
    for caller in ["helper", "foo"] {
        let root = ParsedModule {
            items: vec![
                function(
                    caller,
                    ItemVisibility::Public,
                    span(1, 2),
                    vec![call_statement("foo", span(0, 0))],
                ),
                function("foo", ItemVisibility::Private, span(3, 6), vec![]),
            ],
        };
        let mut analyzer = Analyzer::new(vec![Box::new(UnusedFunction)]);
        let result = analyzer.analyze(&root).unwrap();
        assert!(result.iter().all(|lint| lint.description != "Function 'foo' is unused"));
    }
}

#[test]
fn uncalled_functions_are_reported_once_each_in_source_order() {
    let root = ParsedModule {
        items: vec![
            function("a", ItemVisibility::Private, span(1, 2), vec![]),
            function("b", ItemVisibility::Public, span(3, 4), vec![call_statement("c", span(0, 0))]),
            function("c", ItemVisibility::Private, span(5, 6), vec![]),
            function("d", ItemVisibility::PublicCrate, span(7, 8), vec![]),
        ],
    };
    let mut analyzer = Analyzer::new(vec![Box::new(UnusedFunction)]);
    let result = analyzer.analyze(&root).unwrap();
    let found: Vec<(&str, Option<Span>)> =
        result.iter().map(|lint| (lint.description.as_str(), lint.span)).collect();
    assert_eq!(
        found,
        vec![
            ("Function 'a' is unused", Some(span(1, 2))),
            ("Function 'd' is unused", Some(span(7, 8))),
        ]
    );
    assert!(result.iter().all(|lint| lint.name == "unused-function"));
    assert!(result.iter().all(|lint| lint.severity == Severity::Warning));
}

#[test]
fn redeclared_function_is_judged_by_its_last_declaration() {
    // The private declaration is replaced by the public one: no finding.
    let root = ParsedModule {
        items: vec![
            function("foo", ItemVisibility::Private, span(1, 2), vec![]),
            function("foo", ItemVisibility::Public, span(3, 4), vec![]),
        ],
    };
    let mut analyzer = Analyzer::new(vec![Box::new(UnusedFunction)]);
    assert!(analyzer.analyze(&root).unwrap().is_empty());

    // The public declaration is replaced by the private one: one finding,
    // at the span of the private one.
    let root = ParsedModule {
        items: vec![
            function("foo", ItemVisibility::Public, span(1, 2), vec![]),
            function("foo", ItemVisibility::Private, span(3, 4), vec![]),
        ],
    };
    let mut analyzer = Analyzer::new(vec![Box::new(UnusedFunction)]);
    let result = analyzer.analyze(&root).unwrap();
    assert_eq!(result.len(), 1);
    assert_eq!(result[0].span, Some(span(3, 4)));
}

#[test]
fn joined_key_of_a_longer_path_suppresses_the_finding_of_that_name() {
    // A call of `a::b` is keyed `ab`, so it counts as a call of `ab`.
    let callee = Expression {
        kind: ExpressionKind::Variable(Path {
            segments: vec!["a".to_string(), "b".to_string()],
            kind: PathKind::Plain,
            span: span(0, 0),
        }),
        span: span(0, 0),
    };
    let call = CallExpression { func: Box::new(callee), arguments: vec![], is_macro_call: false };
    let statement = Statement {
        kind: StatementKind::Expression(Expression {
            kind: ExpressionKind::Call(Box::new(call)),
            span: span(0, 0),
        }),
        span: span(0, 0),
    };
    let root = ParsedModule {
        items: vec![
            function("ab", ItemVisibility::Private, span(1, 2), vec![]),
            function("b", ItemVisibility::Private, span(3, 4), vec![]),
            function("main", ItemVisibility::Public, span(5, 6), vec![statement]),
        ],
    };
    let mut analyzer = Analyzer::new(vec![Box::new(UnusedFunction)]);
    let result = analyzer.analyze(&root).unwrap();
    assert_eq!(result.len(), 1);
    assert_eq!(result[0].description, "Function 'b' is unused");
}

#[test]
fn rule_can_be_run_on_a_context_directly() {
    let module = ParsedModule { items: vec![] };
    let foo = FunctionDefinition {
        name: "foo".to_string(),
        span: span(1, 2),
        visibility: ItemVisibility::Private,
        body: vec![],
    };
    let mut context = noir_analyzer::ast::ast_context::AstContext::new(&module);
    context.insert_definition(&foo);
    let result = UnusedFunction.lint(&context);
    assert_eq!(result.len(), 1);
    assert_eq!(result[0].description, "Function 'foo' is unused");

    let call = CallExpression {
        func: Box::new(Expression { kind: ExpressionKind::Literal, span: span(0, 0) }),
        arguments: vec![],
        is_macro_call: false,
    };
    context.record_call("foo".to_string(), &call);
    assert!(UnusedFunction.lint(&context).is_empty());
}
