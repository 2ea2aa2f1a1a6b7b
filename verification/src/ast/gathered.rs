//! What the gathered facts say about the module they were gathered from.
//!
//! The traversal is defined step by step. The statements here say what
//! those steps add up to: which names count as called, which definitions
//! are on record, and what the rule on unused functions therefore reports
//! about the functions of a module.

use crate::ast::analyzer::{
    after_function, after_item, after_items, after_statement, after_statements, module_facts,
    recorded_call,
};
use crate::ast::ast_context::{
    declares, distinct_names, lemma_define_inserts, position_of, with_definition, ContextView,
};
use crate::ast::tree::{FunctionDefinition, Item, ItemKind, ItemVisibility, ParsedModule, Statement};
use crate::lints::lint_rule::LintRule;
use crate::lints::unused_function::{
    is_sole_finding, lemma_called_function_is_not_reported, lemma_public_function_is_exempt,
    lemma_unreferenced_function_is_reported_once, reports, UnusedFunction,
};
use vstd::prelude::*;

verus! {

/// `statement` records a call under `key`.
pub open spec fn records_under(statement: Statement, key: Seq<char>) -> bool {
    recorded_call(statement) matches Some(site) && site.callee == key
}

/// Some statement of `body` records a call under `key`.
pub open spec fn body_calls(body: Seq<Statement>, key: Seq<char>) -> bool {
    exists|at: int| 0 <= at < body.len() && records_under(#[trigger] body[at], key)
}

/// The item at `index` of `items` is the function `def`.
pub open spec fn declares_at(items: Seq<Item>, index: int, def: FunctionDefinition) -> bool {
    0 <= index < items.len() && items[index].kind == ItemKind::Function(def)
}

/// Some statement in the body of some function of `items` records a call
/// under `key`.
pub open spec fn called_in(items: Seq<Item>, key: Seq<char>) -> bool {
    exists|index: int, def: FunctionDefinition| #[trigger]
        declares_at(items, index, def) && body_calls(def.body@, key)
}

/// The item at `index` of `items` is the function `def`, and no later item
/// is a function of the same name.
pub open spec fn last_declared_at(items: Seq<Item>, index: int, def: FunctionDefinition) -> bool {
    &&& declares_at(items, index, def)
    &&& forall|later: int, other: FunctionDefinition|
        index < later && #[trigger] declares_at(items, later, other) ==> other.name@ != def.name@
}

/// Visiting statements records calls and nothing else: the definitions
/// stay, and a name counts as called afterwards exactly if it did before or
/// one of the statements records a call under it.
proof fn lemma_after_statements(context: ContextView, statements: Seq<Statement>)
    ensures
        after_statements(context, statements).definitions == context.definitions,
        forall|key: Seq<char>|
            #[trigger] after_statements(context, statements).is_called(key) <==> context.is_called(
                key,
            ) || body_calls(statements, key),
    decreases statements.len(),
{
    let after = after_statements(context, statements);
    if statements.len() == 0 {
        assert forall|key: Seq<char>| #[trigger]
            after.is_called(key) <==> context.is_called(key) || body_calls(statements, key) by {}
    } else {
        let rest = statements.drop_last();
        let last = statements.last();
        let before = after_statements(context, rest);
        lemma_after_statements(context, rest);
        assert(after == after_statement(before, last));
        assert forall|key: Seq<char>| #[trigger]
            after.is_called(key) <==> context.is_called(key) || body_calls(statements, key) by {
            if after.is_called(key) {
                let k = choose|k: int|
                    0 <= k < after.call_sites.len() && (#[trigger] after.call_sites[k]).callee == key;
                if k < before.call_sites.len() {
                    assert(before.call_sites[k] == after.call_sites[k]);
                    assert(before.is_called(key));
                    if body_calls(rest, key) {
                        let at = choose|at: int|
                            0 <= at < rest.len() && records_under(#[trigger] rest[at], key);
                        assert(statements[at] == rest[at]);
                    }
                } else {
                    assert(records_under(statements[statements.len() - 1], key));
                }
            }
            if context.is_called(key) {
                assert(before.is_called(key));
                let k = choose|k: int|
                    0 <= k < before.call_sites.len() && (#[trigger] before.call_sites[k]).callee
                        == key;
                assert(after.call_sites[k] == before.call_sites[k]);
            }
            if body_calls(statements, key) {
                let at = choose|at: int|
                    0 <= at < statements.len() && records_under(#[trigger] statements[at], key);
                if at < rest.len() {
                    assert(rest[at] == statements[at]);
                    assert(body_calls(rest, key));
                    assert(before.is_called(key));
                    let k = choose|k: int|
                        0 <= k < before.call_sites.len() && (#[trigger] before.call_sites[k]).callee
                            == key;
                    assert(after.call_sites[k] == before.call_sites[k]);
                } else {
                    assert(after.call_sites[after.call_sites.len() - 1].callee == key);
                }
            }
        }
    }
}

/// Recording a definition keeps the names distinct, puts the definition on
/// record, and keeps every definition of another name.
proof fn lemma_with_definition(defs: Seq<FunctionDefinition>, def: FunctionDefinition)
    requires
        distinct_names(defs),
    ensures
        distinct_names(with_definition(defs, def)),
        with_definition(defs, def).contains(def),
        forall|other: FunctionDefinition|
            defs.contains(other) && other.name@ != def.name@ ==> #[trigger] with_definition(
                defs,
                def,
            ).contains(other),
{
    let after = with_definition(defs, def);
    lemma_define_inserts(ContextView { definitions: defs, call_sites: Seq::empty() }, def);
    if declares(defs, def.name@) {
        assert(after[position_of(defs, def.name@)] == def);
    } else {
        assert(after[after.len() - 1] == def);
    }
    assert forall|other: FunctionDefinition|
        defs.contains(other) && other.name@ != def.name@ implies #[trigger] after.contains(
        other,
    ) by {
        let i = choose|i: int| 0 <= i < defs.len() && defs[i] == other;
        assert(after[i] == other);
    }
}

/// What the facts gathered from `items` hold: the definitions have distinct
/// names; a name counts as called exactly if some function body of `items`
/// records a call under it; and the last function declared under a name is
/// on record.
pub proof fn lemma_gathered(items: Seq<Item>)
    ensures
        after_items(ContextView::empty(), items).wf(),
        forall|key: Seq<char>|
            #[trigger] after_items(ContextView::empty(), items).is_called(key) <==> called_in(
                items,
                key,
            ),
        forall|index: int, def: FunctionDefinition| #[trigger]
            last_declared_at(items, index, def) ==> after_items(
                ContextView::empty(),
                items,
            ).definitions.contains(def),
    decreases items.len(),
{
    let after = after_items(ContextView::empty(), items);
    if items.len() == 0 {
        assert forall|key: Seq<char>| #[trigger] after.is_called(key) <==> called_in(items, key) by {}
    } else {
        let rest = items.drop_last();
        let last = items.last();
        let before = after_items(ContextView::empty(), rest);
        lemma_gathered(rest);
        assert(after == after_item(before, last));
        match last.kind {
            ItemKind::Function(function) => {
                let defined = before.define(function);
                lemma_with_definition(before.definitions, function);
                lemma_after_statements(defined, function.body@);
                assert(after == after_function(before, function));
                assert(declares_at(items, items.len() - 1, function));
            },
            _ => {
                assert(after == before);
            },
        }
        assert forall|key: Seq<char>| #[trigger] after.is_called(key) <==> called_in(items, key) by {
            if after.is_called(key) {
                if before.is_called(key) {
                    assert(called_in(rest, key));
                    let (index, def) = choose|index: int, def: FunctionDefinition| #[trigger]
                        declares_at(rest, index, def) && body_calls(def.body@, key);
                    assert(declares_at(items, index, def));
                } else {
                    match last.kind {
                        ItemKind::Function(function) => {
                            assert(before.define(function).is_called(key) == before.is_called(key));
                            assert(body_calls(function.body@, key));
                            assert(declares_at(items, items.len() - 1, function));
                        },
                        _ => {},
                    }
                }
            }
            if called_in(items, key) {
                let (index, def) = choose|index: int, def: FunctionDefinition| #[trigger]
                    declares_at(items, index, def) && body_calls(def.body@, key);
                if index < rest.len() {
                    assert(declares_at(rest, index, def));
                    assert(called_in(rest, key));
                    assert(before.is_called(key));
                    match last.kind {
                        ItemKind::Function(function) => {
                            assert(before.define(function).is_called(key) == before.is_called(key));
                        },
                        _ => {},
                    }
                } else {
                    assert(last.kind == ItemKind::Function(def));
                }
            }
        }
        assert forall|index: int, def: FunctionDefinition| #[trigger]
            last_declared_at(items, index, def) implies after.definitions.contains(def) by {
            if index < rest.len() {
                assert(declares_at(rest, index, def));
                assert forall|later: int, other: FunctionDefinition|
                    index < later && #[trigger] declares_at(
                        rest,
                        later,
                        other,
                    ) implies other.name@ != def.name@ by {
                    assert(declares_at(items, later, other));
                }
                assert(last_declared_at(rest, index, def));
                assert(before.definitions.contains(def));
                match last.kind {
                    ItemKind::Function(function) => {
                        assert(declares_at(items, items.len() - 1, function));
                        assert(function.name@ != def.name@);
                    },
                    _ => {},
                }
            } else {
                assert(last.kind == ItemKind::Function(def));
            }
        }
    }
}

/// The facts gathered from a module are well formed.
pub proof fn lemma_module_facts_are_well_formed(module: ParsedModule)
    ensures
        module_facts(module).wf(),
{
    lemma_gathered(module.items@);
}

/// Public exemption, for a module: the rule on unused functions reports no
/// finding about a public function, whatever the module calls. The function
/// is the last that the module declares under its name, which is the one
/// that goes on record.
pub proof fn lemma_public_function_of_module_is_exempt(
    module: ParsedModule,
    index: int,
    def: FunctionDefinition,
)
    requires
        last_declared_at(module.items@, index, def),
        def.visibility == ItemVisibility::Public,
    ensures
        !reports(UnusedFunction.findings(module_facts(module)), def.name@),
{
    lemma_gathered(module.items@);
    lemma_public_function_is_exempt(module_facts(module), def);
}

/// Call suppression, for a module: if some statement in the body of some
/// function of the module is a call whose path joins to `name`, the rule on
/// unused functions reports no finding about a function of that name.
pub proof fn lemma_call_in_module_suppresses_finding(module: ParsedModule, name: Seq<char>)
    requires
        called_in(module.items@, name),
    ensures
        !reports(UnusedFunction.findings(module_facts(module)), name),
{
    lemma_gathered(module.items@);
    assert(module_facts(module).is_called(name));
    lemma_called_function_is_not_reported(module_facts(module), name);
}

/// Unreferenced detection, for a module: about a function that is not
/// public and whose name no call in the module joins to, the rule on unused
/// functions reports exactly one finding, the warning about that function
/// at the span of its definition. The function is the last that the module
/// declares under its name, which is the one that goes on record.
pub proof fn lemma_uncalled_function_of_module_is_reported_once(
    module: ParsedModule,
    index: int,
    def: FunctionDefinition,
)
    requires
        last_declared_at(module.items@, index, def),
        def.visibility != ItemVisibility::Public,
        !called_in(module.items@, def.name@),
    ensures
        exists|k: int| is_sole_finding(UnusedFunction.findings(module_facts(module)), def, k),
{
    lemma_gathered(module.items@);
    assert(!module_facts(module).is_called(def.name@));
    lemma_unreferenced_function_is_reported_once(module_facts(module), def);
}

} // verus!
