use noir_analyzer::ast::analyzer::{Analyzer, AnalyzerError};
use noir_analyzer::ast::ast_context::AstContext;
use noir_analyzer::ast::tree::{
    CallExpression, Expression, ExpressionKind, FunctionDefinition, Item, ItemKind,
    ItemVisibility, ParsedModule, Path, PathKind, Statement, StatementKind,
};
use noir_analyzer::diagnostics::lint::{Lint, Severity, Span};
use noir_analyzer::lints::lint_rule::LintRule;
use noir_analyzer::lints::unused_function::UnusedFunction;

fn at(start: u32, end: u32) -> Span {
    Span::from_range(start, end)
}

fn path(segments: &[&str], kind: PathKind) -> Path {
    Path { segments: segments.iter().map(|s| s.to_string()).collect(), kind, span: at(0, 0) }
}

fn expression(kind: ExpressionKind) -> Expression {
    Expression { kind, span: at(0, 0) }
}

fn call(callee: Expression, is_macro_call: bool) -> Expression {
    expression(ExpressionKind::Call(Box::new(CallExpression {
        func: Box::new(callee),
        arguments: vec![],
        is_macro_call,
    })))
}

fn call_of(segments: &[&str]) -> Expression {
    call(expression(ExpressionKind::Variable(path(segments, PathKind::Plain))), false)
}

fn statement(kind: StatementKind) -> Statement {
    Statement { kind, span: at(0, 0) }
}

fn function_item(name: &str, visibility: ItemVisibility, span: Span, body: Vec<Statement>) -> Item {
    Item {
        kind: ItemKind::Function(FunctionDefinition {
            name: name.to_string(),
            span,
            visibility,
            body,
        }),
        span,
    }
}

fn private_function(name: &str, body: Vec<Statement>) -> Item {
    function_item(name, ItemVisibility::Private, at(0, 0), body)
}

/// A rule that reports one error, without a span, whatever the facts are.
struct AlwaysError;

impl LintRule for AlwaysError {
    fn name(&self) -> &'static str {
        "always-error"
    }

    fn lint(&self, _context: &AstContext) -> Vec<Lint> {
        vec![Lint {
            name: "always-error",
            severity: Severity::Error,
            description: "always".to_string(),
            span: None,
        }]
    }
}

#[test]
fn test_analyzer_can_be_created() {
    let _analyzer = Analyzer::new(vec![]);
}

#[test]
fn test_analyzer_parses_valid_function() {
    // fn main() {
    // }
    let root = ParsedModule {
        items: vec![function_item("main", ItemVisibility::Private, at(23, 38), vec![])],
    };

    let mut analyzer = Analyzer::new(vec![]);

    assert!(
        analyzer.analyze(&root).is_ok(),
        "Analyzer should successfully parse a valid function."
    );
}

#[test]
fn test_analyzer_adds_function_definitions_to_context() {
    // fn foo() {}
    // fn bar() {}
    let root = ParsedModule {
        items: vec![
            function_item("foo", ItemVisibility::Private, at(22, 24), vec![]),
            function_item("bar", ItemVisibility::Private, at(46, 48), vec![]),
        ],
    };

    let mut analyzer = Analyzer::new(vec![]);

    assert!(
        analyzer.analyze(&root).is_ok(),
        "Analyzer should successfully parse a valid function."
    );

    let context = analyzer.context().expect("Analyzer should have the context");

    assert_eq!(context.definition_count(), 2);
}

#[test]
fn analyze_without_rules_reports_nothing() {
    let root = ParsedModule { items: vec![private_function("foo", vec![])] };
    let mut analyzer = Analyzer::new(vec![]);
    assert_eq!(analyzer.analyze(&root).unwrap(), vec![]);
}

#[test]
fn analyze_of_empty_module_gathers_nothing() {
    let root = ParsedModule { items: vec![] };
    let mut analyzer = Analyzer::new(vec![Box::new(UnusedFunction)]);
    assert!(analyzer.analyze(&root).unwrap().is_empty());
    let context = analyzer.context().unwrap();
    assert_eq!(context.definition_count(), 0);
    assert_eq!(context.call_count(), 0);
}

#[test]
fn context_is_absent_before_the_first_analysis() {
    let analyzer = Analyzer::new(vec![]);
    assert!(analyzer.context().is_none());
}

#[test]
fn context_refers_to_the_analyzed_module() {
    let root = ParsedModule { items: vec![private_function("foo", vec![])] };
    let mut analyzer = Analyzer::new(vec![]);
    analyzer.analyze(&root).unwrap();
    assert_eq!(analyzer.context().unwrap().parsed_module(), &root);
}

#[test]
fn definitions_are_recorded_in_source_order() {
    let root = ParsedModule {
        items: vec![
            private_function("first", vec![]),
            private_function("second", vec![]),
            private_function("third", vec![]),
        ],
    };
    let mut analyzer = Analyzer::new(vec![]);
    analyzer.analyze(&root).unwrap();
    let context = analyzer.context().unwrap();
    assert_eq!(context.definition_count(), 3);
    assert_eq!(context.definition_at(0).name, "first");
    assert_eq!(context.definition_at(1).name, "second");
    assert_eq!(context.definition_at(2).name, "third");
}

#[test]
fn later_definition_of_a_name_replaces_the_earlier() {
    let root = ParsedModule {
        items: vec![
            function_item("foo", ItemVisibility::Private, at(1, 2), vec![]),
            private_function("bar", vec![]),
            function_item("foo", ItemVisibility::Public, at(7, 9), vec![]),
        ],
    };
    let mut analyzer = Analyzer::new(vec![]);
    analyzer.analyze(&root).unwrap();
    let context = analyzer.context().unwrap();
    assert_eq!(context.definition_count(), 2);
    let foo = context.get_definition("foo").unwrap();
    assert_eq!(foo.visibility, ItemVisibility::Public);
    assert_eq!(foo.span, at(7, 9));
    // The name keeps the place of its first declaration.
    assert_eq!(context.definition_at(0).span, at(7, 9));
    assert_eq!(context.definition_at(1).name, "bar");
    assert!(context.get_definition("baz").is_none());
}

#[test]
fn calls_are_recorded_under_the_name_of_the_callee() {
    let root = ParsedModule {
        items: vec![
            private_function(
                "caller",
                vec![
                    statement(StatementKind::Expression(call_of(&["foo"]))),
                    statement(StatementKind::Expression(call_of(&["bar"]))),
                    statement(StatementKind::Expression(call_of(&["foo"]))),
                ],
            ),
            private_function("other", vec![statement(StatementKind::Expression(call_of(&["foo"])))]),
        ],
    };
    let mut analyzer = Analyzer::new(vec![]);
    analyzer.analyze(&root).unwrap();
    let context = analyzer.context().unwrap();
    assert_eq!(context.call_count(), 4);
    assert!(context.contains_call("foo"));
    assert!(context.contains_call("bar"));
    assert!(!context.contains_call("caller"));
    assert_eq!(context.calls_to("foo").len(), 3);
    assert_eq!(context.calls_to("bar").len(), 1);
    assert_eq!(context.calls_to("baz").len(), 0);
}

#[test]
fn path_segments_are_joined_with_nothing_in_between() {
    // `a::b()` and `ab()` are recorded under the same key.
    let root = ParsedModule {
        items: vec![private_function(
            "caller",
            vec![
                statement(StatementKind::Expression(call_of(&["a", "b"]))),
                statement(StatementKind::Expression(call_of(&["ab"]))),
            ],
        )],
    };
    let mut analyzer = Analyzer::new(vec![]);
    analyzer.analyze(&root).unwrap();
    let context = analyzer.context().unwrap();
    assert!(context.contains_call("ab"));
    assert!(!context.contains_call("a"));
    assert!(!context.contains_call("b"));
    assert!(!context.contains_call("a.b"));
    assert!(!context.contains_call("a::b"));
    assert_eq!(context.calls_to("ab").len(), 2);
}

#[test]
fn joined_name_of_a_path() {
    assert_eq!(path(&["std", "hash", "pedersen"], PathKind::Plain).joined_name(), "stdhashpedersen");
    assert_eq!(path(&["foo"], PathKind::Plain).joined_name(), "foo");
    assert_eq!(path(&[], PathKind::Plain).joined_name(), "");
}

#[test]
fn macro_invocations_are_not_recorded() {
    let invocation =
        call(expression(ExpressionKind::Variable(path(&["foo"], PathKind::Plain))), true);
    let root = ParsedModule {
        items: vec![private_function("caller", vec![statement(StatementKind::Expression(invocation))])],
    };
    let mut analyzer = Analyzer::new(vec![]);
    analyzer.analyze(&root).unwrap();
    assert_eq!(analyzer.context().unwrap().call_count(), 0);
}

#[test]
fn calls_of_paths_that_are_not_plain_are_not_recorded() {
    let body = vec![
        statement(StatementKind::Expression(call(
            expression(ExpressionKind::Variable(path(&["foo"], PathKind::Crate))),
            false,
        ))),
        statement(StatementKind::Expression(call(
            expression(ExpressionKind::Variable(path(&["foo"], PathKind::Dep))),
            false,
        ))),
        statement(StatementKind::Expression(call(
            expression(ExpressionKind::Variable(path(&["foo"], PathKind::Super))),
            false,
        ))),
    ];
    let root = ParsedModule { items: vec![private_function("caller", body)] };
    let mut analyzer = Analyzer::new(vec![]);
    assert!(analyzer.analyze(&root).is_ok());
    assert_eq!(analyzer.context().unwrap().call_count(), 0);
}

#[test]
fn calls_of_anything_but_a_path_are_not_recorded() {
    let body = vec![
        statement(StatementKind::Expression(call(expression(ExpressionKind::Parenthesized), false))),
        statement(StatementKind::Expression(call(call_of(&["make"]), false))),
    ];
    let root = ParsedModule { items: vec![private_function("caller", body)] };
    let mut analyzer = Analyzer::new(vec![]);
    assert!(analyzer.analyze(&root).is_ok());
    assert_eq!(analyzer.context().unwrap().call_count(), 0);
}

#[test]
fn forms_that_are_not_interpreted_are_passed_by() {
    let body = vec![
        statement(StatementKind::Let),
        statement(StatementKind::Assign),
        statement(StatementKind::For),
        statement(StatementKind::Loop),
        statement(StatementKind::While),
        statement(StatementKind::Break),
        statement(StatementKind::Continue),
        statement(StatementKind::Comptime),
        statement(StatementKind::Semi(call_of(&["foo"]))),
        statement(StatementKind::Interned),
        statement(StatementKind::Error),
        statement(StatementKind::Expression(expression(ExpressionKind::Literal))),
        statement(StatementKind::Expression(expression(ExpressionKind::Variable(path(
            &["foo"],
            PathKind::Plain,
        ))))),
        statement(StatementKind::Expression(expression(ExpressionKind::If))),
    ];
    let items = vec![
        Item { kind: ItemKind::Import, span: at(0, 0) },
        Item { kind: ItemKind::Struct, span: at(0, 0) },
        Item { kind: ItemKind::Enum, span: at(0, 0) },
        Item { kind: ItemKind::Trait, span: at(0, 0) },
        Item { kind: ItemKind::TraitImpl, span: at(0, 0) },
        Item { kind: ItemKind::Impl, span: at(0, 0) },
        Item { kind: ItemKind::TypeAlias, span: at(0, 0) },
        Item { kind: ItemKind::Global, span: at(0, 0) },
        Item { kind: ItemKind::ModuleDecl, span: at(0, 0) },
        Item { kind: ItemKind::Submodules, span: at(0, 0) },
        Item { kind: ItemKind::InnerAttribute, span: at(0, 0) },
        private_function("only", body),
    ];
    let root = ParsedModule { items };
    let mut analyzer = Analyzer::new(vec![]);
    assert!(analyzer.analyze(&root).is_ok());
    let context = analyzer.context().unwrap();
    assert_eq!(context.definition_count(), 1);
    assert_eq!(context.call_count(), 0);
}

#[test]
fn visits_fail_and_change_nothing_without_a_context() {
    let root = ParsedModule {
        items: vec![private_function("foo", vec![statement(StatementKind::Expression(call_of(&["bar"])))])],
    };
    let mut analyzer = Analyzer::new(vec![]);
    assert!(!analyzer.visit_parsed_module(&root));
    assert!(!analyzer.visit_item(&root.items[0]));
    if let ItemKind::Function(function) = &root.items[0].kind {
        assert!(!analyzer.visit_noir_function(function, root.items[0].span));
        assert!(!analyzer.visit_statement(&function.body[0]));
        if let StatementKind::Expression(expression) = &function.body[0].kind {
            assert!(!analyzer.visit_expression(expression));
        }
    }
    assert!(analyzer.context().is_none());
}

#[test]
fn visits_succeed_after_an_analysis() {
    let root = ParsedModule { items: vec![private_function("foo", vec![])] };
    let more = ParsedModule {
        items: vec![private_function("bar", vec![statement(StatementKind::Expression(call_of(&["foo"])))])],
    };
    let mut analyzer = Analyzer::new(vec![]);
    analyzer.analyze(&root).unwrap();
    assert!(analyzer.visit_parsed_module(&more));
    let context = analyzer.context().unwrap();
    assert_eq!(context.definition_count(), 2);
    assert!(context.contains_call("foo"));
}

#[test]
fn running_the_rules_without_a_context_is_a_traversal_failure() {
    let analyzer = Analyzer::new(vec![Box::new(UnusedFunction)]);
    assert!(matches!(analyzer.run_lint_rules(), Err(AnalyzerError::TraversalFailed(_))));
}

#[test]
fn rules_run_in_registration_order() {
    let root = ParsedModule {
        items: vec![function_item("foo", ItemVisibility::Private, at(3, 6), vec![])],
    };
    let unused = Lint {
        name: "unused-function",
        severity: Severity::Warning,
        description: "Function 'foo' is unused".to_string(),
        span: Some(at(3, 6)),
    };
    let always = Lint {
        name: "always-error",
        severity: Severity::Error,
        description: "always".to_string(),
        span: None,
    };

    let mut analyzer = Analyzer::new(vec![Box::new(AlwaysError), Box::new(UnusedFunction)]);
    assert_eq!(analyzer.analyze(&root).unwrap(), vec![always.clone(), unused.clone()]);

    let mut analyzer = Analyzer::new(vec![Box::new(UnusedFunction), Box::new(AlwaysError)]);
    assert_eq!(analyzer.analyze(&root).unwrap(), vec![unused, always]);
}

#[test]
fn repeated_analyses_report_the_same() {
    let root = ParsedModule {
        items: vec![
            function_item("foo", ItemVisibility::Private, at(3, 6), vec![]),
            function_item("bar", ItemVisibility::PublicCrate, at(13, 16), vec![]),
            function_item(
                "baz",
                ItemVisibility::Public,
                at(23, 26),
                vec![statement(StatementKind::Expression(call_of(&["bar"])))],
            ),
        ],
    };
    let mut analyzer = Analyzer::new(vec![Box::new(UnusedFunction), Box::new(AlwaysError)]);
    let first = analyzer.analyze(&root).unwrap();
    let second = analyzer.analyze(&root).unwrap();
    let mut other = Analyzer::new(vec![Box::new(UnusedFunction), Box::new(AlwaysError)]);
    let third = other.analyze(&root).unwrap();
    assert_eq!(first.len(), 2);
    assert_eq!(first, second);
    assert_eq!(first, third);
    // The second run starts from a new context.
    assert_eq!(analyzer.context().unwrap().definition_count(), 3);
    assert_eq!(analyzer.context().unwrap().call_count(), 1);
}
