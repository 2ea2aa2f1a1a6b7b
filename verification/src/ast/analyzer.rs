//! The analyzer: one pass over a module that gathers facts, followed by one
//! sweep of the lint rules over those facts.
//!
//! The traversal visits every top-level item of a module once, in source
//! order. For a function it records the definition and then visits the
//! statements of the body; for a statement that is a call of a plain path it
//! records the call under the joined name of the path. Every other form is
//! named and passed by. While it walks, the analyzer keeps a stack of frames
//! that says where it is; visiting a path leaves the names of the path on
//! top of that stack, and the visit of the call reads them from there before
//! it unwinds the stack to the depth at which it started.

use crate::ast::ast_context::{AstContext, CallSiteView, ContextView};
use crate::ast::tree::{
    join_names, Expression, ExpressionKind, FunctionDefinition, Item, ItemKind, ParsedModule,
    Path, PathKind, Statement, StatementKind,
};
use crate::diagnostics::lint::{lint_views, Lint, LintView, Span};
use crate::lints::lint_rule::LintRule;
use vstd::prelude::*;
use vstd::string::StringExecFns;

verus! {

/// One error that the parser reported.
#[derive(Debug, Clone, PartialEq)]
pub struct ParserError {
    /// What the parser found wrong.
    pub message: String,
    /// Where in the source it found it.
    pub span: Span,
}

/// Why an analysis could not be carried out.
#[derive(Debug)]
pub enum AnalyzerError {
    /// The parser reported errors; they are listed as it reported them.
    ParsingError(Vec<ParserError>),
    /// The traversal was asked to work in a state in which it cannot.
    TraversalFailed(String),
    /// The file at the path could not be read; the message says why.
    FileReadError(String, String),
}

/// A frame of the traversal stack: the construct that the traversal is in,
/// or the names of the path that it has just visited.
pub enum StackItem<'ast> {
    Module,
    Identifiers(&'ast Vec<String>),
    Function,
    FunctionCall,
}

/// The call that `expression` records, if it records one: the expression is
/// a call, not a macro invocation, of a variable named by a plain path.
pub open spec fn call_site(expression: Expression) -> Option<CallSiteView> {
    match expression.kind {
        ExpressionKind::Call(call) => match call.func.kind {
            ExpressionKind::Variable(path) => if !call.is_macro_call && path.kind
                == PathKind::Plain {
                Some(CallSiteView { callee: path.key(), call: *call })
            } else {
                None
            },
            _ => None,
        },
        _ => None,
    }
}

/// The call that `statement` records, if it records one: the statement is an
/// expression that records a call.
pub open spec fn recorded_call(statement: Statement) -> Option<CallSiteView> {
    match statement.kind {
        StatementKind::Expression(expression) => call_site(expression),
        _ => None,
    }
}

/// The facts after `expression` has been visited.
pub open spec fn after_expression(context: ContextView, expression: Expression) -> ContextView {
    match call_site(expression) {
        Some(site) => context.record(site.callee, site.call),
        None => context,
    }
}

/// The facts after `statement` has been visited.
pub open spec fn after_statement(context: ContextView, statement: Statement) -> ContextView {
    match recorded_call(statement) {
        Some(site) => context.record(site.callee, site.call),
        None => context,
    }
}

/// The facts after `statements` have been visited in order.
pub open spec fn after_statements(context: ContextView, statements: Seq<Statement>) -> ContextView
    decreases statements.len(),
{
    if statements.len() == 0 {
        context
    } else {
        after_statement(after_statements(context, statements.drop_last()), statements.last())
    }
}

/// The facts after `function` has been visited: its definition is recorded,
/// then its body is visited.
pub open spec fn after_function(context: ContextView, function: FunctionDefinition) -> ContextView {
    after_statements(context.define(function), function.body@)
}

/// The facts after `item` has been visited.
pub open spec fn after_item(context: ContextView, item: Item) -> ContextView {
    match item.kind {
        ItemKind::Function(function) => after_function(context, function),
        _ => context,
    }
}

/// The facts after `items` have been visited in order.
pub open spec fn after_items(context: ContextView, items: Seq<Item>) -> ContextView
    decreases items.len(),
{
    if items.len() == 0 {
        context
    } else {
        after_item(after_items(context, items.drop_last()), items.last())
    }
}

/// The facts that one traversal gathers from `module`.
pub open spec fn module_facts(module: ParsedModule) -> ContextView {
    after_items(ContextView::empty(), module.items@)
}

/// The findings of `rules` on the facts `context`: those of the first rule,
/// then those of the second, and so on.
pub open spec fn all_findings(rules: Seq<Box<dyn LintRule>>, context: ContextView) -> Seq<LintView>
    decreases rules.len(),
{
    if rules.len() == 0 {
        Seq::empty()
    } else {
        all_findings(rules.drop_last(), context) + rules.last().findings(context)
    }
}

/// What an analysis of `module` with `rules` reports.
pub open spec fn analysis(rules: Seq<Box<dyn LintRule>>, module: ParsedModule) -> Seq<LintView> {
    all_findings(rules, module_facts(module))
}

/// Implements the analysis of a syntax tree by visiting its nodes.
pub struct Analyzer<'ast> {
    context: Option<AstContext<'ast>>,
    lint_rules: Vec<Box<dyn LintRule>>,
    stack: Vec<StackItem<'ast>>,
}

impl<'ast> Analyzer<'ast> {
    /// The facts gathered so far, if a context has been created.
    pub closed spec fn facts(&self) -> Option<ContextView> {
        match self.context {
            Some(context) => Some(context@),
            None => None,
        }
    }

    /// The module that the facts are gathered from, if a context has been
    /// created.
    pub closed spec fn subject(&self) -> Option<ParsedModule> {
        match self.context {
            Some(context) => Some(context.module()),
            None => None,
        }
    }

    /// The registered rules, in registration order.
    pub closed spec fn rules(&self) -> Seq<Box<dyn LintRule>> {
        self.lint_rules@
    }

    /// The frames of the traversal stack, the innermost last.
    pub closed spec fn frames(&self) -> Seq<StackItem<'ast>> {
        self.stack@
    }

    /// The invariant of an analyzer: the facts it holds are well formed.
    pub closed spec fn wf(&self) -> bool {
        self.context matches Some(context) ==> context@.wf()
    }

    /// Creates an analyzer that will run `lints`, in the order given.
    pub fn new(lints: Vec<Box<dyn LintRule>>) -> (analyzer: Self)
        ensures
            analyzer.wf(),
            analyzer.rules() == lints@,
            analyzer.facts() is None,
            analyzer.subject() is None,
            analyzer.frames() == Seq::<StackItem<'ast>>::empty(),
    {
        Self { context: None, lint_rules: lints, stack: Vec::new() }
    }

    /// The context of the last analysis, if there was one. Its facts are
    /// well formed, so that rules can be run on it.
    pub fn context(&self) -> (context: Option<&AstContext<'ast>>)
        requires
            self.wf(),
        ensures
            context is Some == self.facts() is Some,
            context matches Some(c) ==> Some(c@) == self.facts() && Some(c.module())
                == self.subject() && c@.wf(),
    {
        self.context.as_ref()
    }

    /// Visits a path: the names of a plain path are left on top of the
    /// stack; a path of any other kind is passed by.
    pub fn visit_path(&mut self, path: &'ast Path)
        requires
            old(self).wf(),
        ensures
            final(self).wf(),
            final(self).facts() == old(self).facts(),
            final(self).rules() == old(self).rules(),
            final(self).subject() == old(self).subject(),
            final(self).frames() == if path.kind == PathKind::Plain {
                old(self).frames().push(StackItem::Identifiers(&path.segments))
            } else {
                old(self).frames()
            },
    {
        match path.kind {
            PathKind::Crate => {},
            PathKind::Dep => {},
            PathKind::Plain => self.stack.push(StackItem::Identifiers(&path.segments)),
            PathKind::Super => {},
        }
    }

    /// Visits an expression. A call of a plain path is recorded under the
    /// joined name of the path: the visit of the path leaves the names on
    /// top of the stack, and this visit reads them from there and then
    /// unwinds the stack to the depth at which it started. A macro
    /// invocation, a call of anything but a plain path, and every other form
    /// of expression are passed by.
    ///
    /// Returns `false`, and changes nothing, when no context has been
    /// created.
    pub fn visit_expression(&mut self, expression: &'ast Expression) -> (visited: bool)
        requires
            old(self).wf(),
        ensures
            final(self).wf(),
            visited == old(self).facts() is Some,
            final(self).rules() == old(self).rules(),
            final(self).subject() == old(self).subject(),
            final(self).frames() == old(self).frames(),
            final(self).facts() == match old(self).facts() {
                Some(context) => Some(after_expression(context, *expression)),
                None => None,
            },
    {
        if self.context.is_none() {
            return false;
        }
        let stack_size = self.stack.len();
        self.stack.push(StackItem::FunctionCall);
        match &expression.kind {
            ExpressionKind::Call(call) => {
                if !call.is_macro_call {
                    match &call.func.kind {
                        ExpressionKind::Variable(variable) => {
                            self.visit_path(variable);
                            let top = self.stack.len() - 1;
                            match self.stack[top] {
                                StackItem::Identifiers(identifiers) => {
                                    let callee = join_names(identifiers);
                                    match &mut self.context {
                                        Some(context) => context.record_call(callee, call),
                                        None => {},
                                    }
                                },
                                _ => {},
                            }
                        },
                        _ => {},
                    }
                }
            },
            ExpressionKind::Literal
            | ExpressionKind::Block
            | ExpressionKind::Prefix
            | ExpressionKind::Index
            | ExpressionKind::MethodCall
            | ExpressionKind::Constrain
            | ExpressionKind::Constructor
            | ExpressionKind::MemberAccess
            | ExpressionKind::Cast
            | ExpressionKind::Infix
            | ExpressionKind::If
            | ExpressionKind::Match
            | ExpressionKind::Variable(_)
            | ExpressionKind::Tuple
            | ExpressionKind::Lambda
            | ExpressionKind::Parenthesized
            | ExpressionKind::Quote
            | ExpressionKind::Unquote
            | ExpressionKind::Comptime
            | ExpressionKind::Unsafe
            | ExpressionKind::AsTraitPath
            | ExpressionKind::TypePath
            | ExpressionKind::Resolved
            | ExpressionKind::Interned
            | ExpressionKind::InternedStatement
            | ExpressionKind::Error => {},
        }
        self.stack.truncate(stack_size);
        assert(self.stack@ =~= old(self).stack@);
        true
    }

    /// Visits a statement: an expression in statement position is visited
    /// as an expression; every other form of statement is passed by.
    ///
    /// Returns `false`, and changes nothing, when no context has been
    /// created.
    pub fn visit_statement(&mut self, statement: &'ast Statement) -> (visited: bool)
        requires
            old(self).wf(),
        ensures
            final(self).wf(),
            visited == old(self).facts() is Some,
            final(self).rules() == old(self).rules(),
            final(self).subject() == old(self).subject(),
            final(self).frames() == old(self).frames(),
            final(self).facts() == match old(self).facts() {
                Some(context) => Some(after_statement(context, *statement)),
                None => None,
            },
    {
        match &statement.kind {
            StatementKind::Expression(expression) => self.visit_expression(expression),
            StatementKind::Let
            | StatementKind::Assign
            | StatementKind::For
            | StatementKind::Loop
            | StatementKind::While
            | StatementKind::Break
            | StatementKind::Continue
            | StatementKind::Comptime
            | StatementKind::Semi(_)
            | StatementKind::Interned
            | StatementKind::Error => self.context.is_some(),
        }
    }

    /// Visits a function: its definition is recorded under its name, in
    /// place of an earlier definition of that name, and the statements of
    /// its body are visited in order.
    ///
    /// Returns `false`, and changes nothing, when no context has been
    /// created.
    pub fn visit_noir_function(&mut self, function: &'ast FunctionDefinition, _span: Span) -> (visited:
        bool)
        requires
            old(self).wf(),
        ensures
            final(self).wf(),
            visited == old(self).facts() is Some,
            final(self).rules() == old(self).rules(),
            final(self).subject() == old(self).subject(),
            final(self).frames() == old(self).frames(),
            final(self).facts() == match old(self).facts() {
                Some(context) => Some(after_function(context, *function)),
                None => None,
            },
    {
        let stack_size = self.stack.len();
        match &mut self.context {
            None => {
                return false;
            },
            Some(context) => {
                context.insert_definition(function);
            },
        }
        self.stack.push(StackItem::Function);
        let ghost defined = self.facts()->0;
        let mut i: usize = 0;
        assert(function.body@.take(0) =~= Seq::empty());
        while i < function.body.len()
            invariant
                i <= function.body.len(),
                self.wf(),
                self.rules() == old(self).rules(),
                self.subject() == old(self).subject(),
                self.frames() == old(self).frames().push(StackItem::Function),
                self.facts() == Some(after_statements(defined, function.body@.take(i as int))),
            decreases function.body.len() - i,
        {
            assert(function.body@.take(i + 1).drop_last() =~= function.body@.take(i as int));
            self.visit_statement(&function.body[i]);
            i = i + 1;
        }
        assert(function.body@.take(i as int) =~= function.body@);
        self.stack.truncate(stack_size);
        assert(self.stack@ =~= old(self).stack@);
        true
    }

    /// Visits a top-level item: a function is visited as a function; every
    /// other form of item is passed by.
    ///
    /// Returns `false`, and changes nothing, when no context has been
    /// created.
    pub fn visit_item(&mut self, item: &'ast Item) -> (visited: bool)
        requires
            old(self).wf(),
        ensures
            final(self).wf(),
            visited == old(self).facts() is Some,
            final(self).rules() == old(self).rules(),
            final(self).subject() == old(self).subject(),
            final(self).frames() == old(self).frames(),
            final(self).facts() == match old(self).facts() {
                Some(context) => Some(after_item(context, *item)),
                None => None,
            },
    {
        match &item.kind {
            ItemKind::Function(function) => self.visit_noir_function(function, item.span),
            ItemKind::Import
            | ItemKind::Struct
            | ItemKind::Enum
            | ItemKind::Trait
            | ItemKind::TraitImpl
            | ItemKind::Impl
            | ItemKind::TypeAlias
            | ItemKind::Global
            | ItemKind::ModuleDecl
            | ItemKind::Submodules
            | ItemKind::InnerAttribute => self.context.is_some(),
        }
    }

    /// Visits a module: its items are visited once each, in source order,
    /// and the stack is left empty.
    ///
    /// Returns `false`, and changes nothing, when no context has been
    /// created.
    pub fn visit_parsed_module(&mut self, parsed_module: &'ast ParsedModule) -> (visited: bool)
        requires
            old(self).wf(),
        ensures
            final(self).wf(),
            visited == old(self).facts() is Some,
            final(self).rules() == old(self).rules(),
            final(self).subject() == old(self).subject(),
            final(self).frames() == if visited {
                Seq::empty()
            } else {
                old(self).frames()
            },
            final(self).facts() == match old(self).facts() {
                Some(context) => Some(after_items(context, parsed_module.items@)),
                None => None,
            },
    {
        if self.context.is_none() {
            return false;
        }
        self.stack.push(StackItem::Module);
        let ghost start = self.facts()->0;
        let mut i: usize = 0;
        assert(parsed_module.items@.take(0) =~= Seq::empty());
        while i < parsed_module.items.len()
            invariant
                i <= parsed_module.items.len(),
                self.wf(),
                self.rules() == old(self).rules(),
                self.subject() == old(self).subject(),
                self.facts() == Some(after_items(start, parsed_module.items@.take(i as int))),
            decreases parsed_module.items.len() - i,
        {
            assert(parsed_module.items@.take(i + 1).drop_last() =~= parsed_module.items@.take(
                i as int,
            ));
            self.visit_item(&parsed_module.items[i]);
            i = i + 1;
        }
        assert(parsed_module.items@.take(i as int) =~= parsed_module.items@);
        self.stack.clear();
        true
    }

    /// Runs the registered rules, once each and in registration order, on
    /// the facts gathered so far, and returns their findings in that order.
    ///
    /// Fails with `TraversalFailed` when no context has been created.
    pub fn run_lint_rules(&self) -> (outcome: Result<Vec<Lint>, AnalyzerError>)
        requires
            self.wf(),
        ensures
            match self.facts() {
                Some(context) => outcome matches Ok(lints) && lint_views(lints@) == all_findings(
                    self.rules(),
                    context,
                ),
                None => outcome matches Err(AnalyzerError::TraversalFailed(_)),
            },
    {
        match &self.context {
            None => Err(AnalyzerError::TraversalFailed(String::from_str("Context must be initialized"))),
            Some(context) => {
                let mut lints: Vec<Lint> = Vec::new();
                let mut i: usize = 0;
                assert(self.lint_rules@.take(0) =~= Seq::empty());
                assert(lint_views(lints@) =~= Seq::empty());
                while i < self.lint_rules.len()
                    invariant
                        i <= self.lint_rules.len(),
                        context@.wf(),
                        lint_views(lints@) == all_findings(
                            self.lint_rules@.take(i as int),
                            context@,
                        ),
                    decreases self.lint_rules.len() - i,
                {
                    assert(self.lint_rules@.take(i + 1).drop_last() =~= self.lint_rules@.take(
                        i as int,
                    ));
                    let mut found = self.lint_rules[i].lint(context);
                    let ghost before = lints@;
                    let ghost added = found@;
                    lints.append(&mut found);
                    assert(lint_views(lints@) =~= lint_views(before) + lint_views(added));
                    i = i + 1;
                }
                assert(self.lint_rules@.take(i as int) =~= self.lint_rules@);
                Ok(lints)
            },
        }
    }

    /// Analyzes `parsed_module`: gathers its facts into a new context, then
    /// runs the registered rules on them and returns their findings.
    ///
    /// The outcome depends on the registered rules and on the module alone,
    /// not on what the analyzer did before. The context stays with the
    /// analyzer for inspection.
    pub fn analyze(&mut self, parsed_module: &'ast ParsedModule) -> (outcome: Result<
        Vec<Lint>,
        AnalyzerError,
    >)
        requires
            old(self).wf(),
        ensures
            final(self).wf(),
            outcome matches Ok(lints) && lint_views(lints@) == analysis(
                old(self).rules(),
                *parsed_module,
            ),
            final(self).rules() == old(self).rules(),
            final(self).facts() == Some(module_facts(*parsed_module)),
            final(self).subject() == Some(*parsed_module),
            final(self).frames() == Seq::<StackItem<'ast>>::empty(),
    {
        self.context = Some(AstContext::new(parsed_module));
        if !self.visit_parsed_module(parsed_module) {
            return Err(AnalyzerError::TraversalFailed(String::from_str("AST traversal failed")));
        }
        self.run_lint_rules()
    }
}

/// Determinism: two analyses that run the same rules on the same module
/// report the same lints, in the same order. `first` and `second` stand for
/// what two calls of `analyze` returned.
pub proof fn lemma_repeated_analyses_agree(
    rules: Seq<Box<dyn LintRule>>,
    module: ParsedModule,
    first: Seq<Lint>,
    second: Seq<Lint>,
)
    requires
        lint_views(first) == analysis(rules, module),
        lint_views(second) == analysis(rules, module),
    ensures
        first.len() == second.len(),
        forall|i: int| 0 <= i < first.len() ==> (#[trigger] first[i])@ == second[i]@,
{
    assert(lint_views(first).len() == first.len());
    assert(lint_views(second).len() == second.len());
    assert forall|i: int| 0 <= i < first.len() implies (#[trigger] first[i])@ == second[i]@ by {
        assert(lint_views(first)[i] == first[i]@);
        assert(lint_views(second)[i] == second[i]@);
    }
}

} // verus!
