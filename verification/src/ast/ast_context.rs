//! The facts that a traversal gathers and that lint rules query.
//!
//! A context records which functions a module declares and which calls its
//! function bodies make. It is filled once, during traversal, and only read
//! afterwards. The nodes it records are borrowed from the tree, so a context
//! never outlives the module it describes.

use crate::ast::tree::{CallExpression, FunctionDefinition, ParsedModule};
use crate::text::str_equal;
use vstd::prelude::*;

verus! {

/// One recorded call, as a mathematical value: the key it is recorded under
/// and the call node itself.
pub struct CallSiteView {
    pub callee: Seq<char>,
    pub call: CallExpression,
}

/// The mathematical content of a context.
///
/// `definitions` lists the recorded function definitions in the order in
/// which their names were first declared; `call_sites` lists the recorded
/// calls in the order in which the traversal met them.
pub struct ContextView {
    pub definitions: Seq<FunctionDefinition>,
    pub call_sites: Seq<CallSiteView>,
}

/// No two definitions of `defs` have the same name.
pub open spec fn distinct_names(defs: Seq<FunctionDefinition>) -> bool {
    forall|i: int, j: int|
        0 <= i < j < defs.len() ==> (#[trigger] defs[i]).name@ != (#[trigger] defs[j]).name@
}

/// Some definition of `defs` is named `name`.
pub open spec fn declares(defs: Seq<FunctionDefinition>, name: Seq<char>) -> bool {
    exists|i: int| 0 <= i < defs.len() && (#[trigger] defs[i]).name@ == name
}

/// The position in `defs` of a definition named `name`.
pub open spec fn position_of(defs: Seq<FunctionDefinition>, name: Seq<char>) -> int {
    choose|i: int| 0 <= i < defs.len() && (#[trigger] defs[i]).name@ == name
}

/// Among definitions with distinct names, a name is found where it stands.
pub proof fn lemma_position_of(defs: Seq<FunctionDefinition>, i: int)
    requires
        distinct_names(defs),
        0 <= i < defs.len(),
    ensures
        declares(defs, defs[i].name@),
        position_of(defs, defs[i].name@) == i,
{
    let name = defs[i].name@;
    assert(declares(defs, name));
    let p = position_of(defs, name);
    assert(0 <= p < defs.len() && defs[p].name@ == name);
    if p < i {
        assert(defs[p].name@ != defs[i].name@);
    }
    if i < p {
        assert(defs[i].name@ != defs[p].name@);
    }
}

/// `defs` after the definition `def` has been recorded: `def` takes the place
/// of the definition that had its name, or comes last if there was none.
pub open spec fn with_definition(
    defs: Seq<FunctionDefinition>,
    def: FunctionDefinition,
) -> Seq<FunctionDefinition> {
    if declares(defs, def.name@) {
        defs.update(position_of(defs, def.name@), def)
    } else {
        defs.push(def)
    }
}

/// The calls among `sites` that are recorded under `key`, in order.
pub open spec fn calls_under(sites: Seq<CallSiteView>, key: Seq<char>) -> Seq<CallExpression>
    decreases sites.len(),
{
    if sites.len() == 0 {
        Seq::empty()
    } else if sites.last().callee == key {
        calls_under(sites.drop_last(), key).push(sites.last().call)
    } else {
        calls_under(sites.drop_last(), key)
    }
}

impl ContextView {
    /// The content of a context in which nothing is recorded.
    pub open spec fn empty() -> ContextView {
        ContextView { definitions: Seq::empty(), call_sites: Seq::empty() }
    }

    /// The invariant of a context: definitions are told apart by name.
    pub open spec fn wf(self) -> bool {
        distinct_names(self.definitions)
    }

    /// Some call is recorded under `key`.
    pub open spec fn is_called(self, key: Seq<char>) -> bool {
        exists|i: int| 0 <= i < self.call_sites.len() && (#[trigger] self.call_sites[i]).callee == key
    }

    /// The recorded definitions by name.
    pub open spec fn function_definitions(self) -> Map<Seq<char>, FunctionDefinition> {
        Map::new(
            |name: Seq<char>| declares(self.definitions, name),
            |name: Seq<char>| self.definitions[position_of(self.definitions, name)],
        )
    }

    /// The recorded calls by callee key, each key with its calls in the order
    /// in which the traversal met them.
    pub open spec fn function_calls(self) -> Map<Seq<char>, Seq<CallExpression>> {
        Map::new(
            |key: Seq<char>| self.is_called(key),
            |key: Seq<char>| calls_under(self.call_sites, key),
        )
    }

    /// The content after `def` has been recorded.
    pub open spec fn define(self, def: FunctionDefinition) -> ContextView {
        ContextView { definitions: with_definition(self.definitions, def), ..self }
    }

    /// The content after `call` has been recorded under `key`.
    pub open spec fn record(self, key: Seq<char>, call: CallExpression) -> ContextView {
        ContextView {
            call_sites: self.call_sites.push(CallSiteView { callee: key, call }),
            ..self
        }
    }
}

/// Last write wins: recording a definition maps its name to it, in place of
/// whatever the name was mapped to, and leaves every other name as it was.
pub proof fn lemma_define_inserts(context: ContextView, def: FunctionDefinition)
    requires
        context.wf(),
    ensures
        context.define(def).wf(),
        context.define(def).function_definitions() == context.function_definitions().insert(
            def.name@,
            def,
        ),
        context.define(def).function_calls() == context.function_calls(),
{
    let defs = context.definitions;
    let after = with_definition(defs, def);
    if declares(defs, def.name@) {
        let at = position_of(defs, def.name@);
        assert forall|i: int, j: int| 0 <= i < j < after.len() implies (#[trigger] after[i]).name@
            != (#[trigger] after[j]).name@ by {
            assert(after[i].name@ == defs[i].name@);
            assert(after[j].name@ == defs[j].name@);
        }
        assert forall|name: Seq<char>| declares(after, name) <==> declares(defs, name) || name
            == def.name@ by {
            if declares(after, name) {
                let i = choose|i: int| 0 <= i < after.len() && (#[trigger] after[i]).name@ == name;
                assert(defs[i].name@ == name);
            }
            if declares(defs, name) {
                let i = choose|i: int| 0 <= i < defs.len() && (#[trigger] defs[i]).name@ == name;
                assert(after[i].name@ == name);
            }
            if name == def.name@ {
                assert(after[at].name@ == name);
            }
        }
        assert forall|name: Seq<char>| declares(after, name) implies after[position_of(after, name)]
            == (if name == def.name@ {
            def
        } else {
            defs[position_of(defs, name)]
        }) by {
            let i = position_of(after, name);
            lemma_position_of(defs, i);
            if name != def.name@ {
                assert(after[i] == defs[i]);
            } else {
                lemma_position_of(after, at);
            }
        }
    } else {
        assert forall|i: int, j: int| 0 <= i < j < after.len() implies (#[trigger] after[i]).name@
            != (#[trigger] after[j]).name@ by {
            if j < defs.len() {
                assert(after[i] == defs[i] && after[j] == defs[j]);
            } else {
                assert(after[i] == defs[i]);
            }
        }
        assert forall|name: Seq<char>| declares(after, name) <==> declares(defs, name) || name
            == def.name@ by {
            if declares(after, name) {
                let i = choose|i: int| 0 <= i < after.len() && (#[trigger] after[i]).name@ == name;
                if i < defs.len() {
                    assert(defs[i].name@ == name);
                }
            }
            if declares(defs, name) {
                let i = choose|i: int| 0 <= i < defs.len() && (#[trigger] defs[i]).name@ == name;
                assert(after[i].name@ == name);
            }
            if name == def.name@ {
                assert(after[after.len() - 1].name@ == name);
            }
        }
        assert forall|name: Seq<char>| declares(after, name) implies after[position_of(after, name)]
            == (if name == def.name@ {
            def
        } else {
            defs[position_of(defs, name)]
        }) by {
            let i = position_of(after, name);
            lemma_position_of(after, i);
            if i < defs.len() {
                assert(after[i] == defs[i]);
                lemma_position_of(defs, i);
            }
        }
    }
    assert(context.define(def).function_definitions() =~= context.function_definitions().insert(
        def.name@,
        def,
    ));
}

/// Recording a call adds it at the end of the calls of its key, and leaves
/// the calls of every other key, and the definitions, as they were.
pub proof fn lemma_record_appends(context: ContextView, key: Seq<char>, call: CallExpression)
    ensures
        context.wf() ==> context.record(key, call).wf(),
        context.record(key, call).function_definitions() == context.function_definitions(),
        context.record(key, call).function_calls() == context.function_calls().insert(
            key,
            calls_under(context.call_sites, key).push(call),
        ),
{
    let before = context.call_sites;
    let after = context.record(key, call);
    assert(after.call_sites.drop_last() =~= before);
    assert forall|other: Seq<char>| after.is_called(other) <==> context.is_called(other) || other
        == key by {
        if after.is_called(other) {
            let i = choose|i: int|
                0 <= i < after.call_sites.len() && (#[trigger] after.call_sites[i]).callee == other;
            if i < before.len() {
                assert(before[i].callee == other);
            }
        }
        if context.is_called(other) {
            let i = choose|i: int| 0 <= i < before.len() && (#[trigger] before[i]).callee == other;
            assert(after.call_sites[i].callee == other);
        }
        if other == key {
            assert(after.call_sites[after.call_sites.len() - 1].callee == key);
        }
    }
    assert(after.function_calls() =~= context.function_calls().insert(
        key,
        calls_under(before, key).push(call),
    ));
}

/// One recorded call: the key it is recorded under and the call node.
pub struct CallSite<'ast> {
    pub callee: String,
    pub call: &'ast CallExpression,
}

impl<'ast> View for CallSite<'ast> {
    type V = CallSiteView;

    open spec fn view(&self) -> CallSiteView {
        CallSiteView { callee: self.callee@, call: *self.call }
    }
}

/// Stores all data collected from one traversal of a module.
pub struct AstContext<'ast> {
    parsed_module: &'ast ParsedModule,
    function_definitions: Vec<&'ast FunctionDefinition>,
    function_calls: Vec<CallSite<'ast>>,
}

impl<'ast> View for AstContext<'ast> {
    type V = ContextView;

    closed spec fn view(&self) -> ContextView {
        ContextView {
            definitions: self.function_definitions@.map_values(|d: &FunctionDefinition| *d),
            call_sites: self.function_calls@.map_values(|s: CallSite| s@),
        }
    }
}

impl<'ast> AstContext<'ast> {
    /// The module that the facts are gathered from.
    pub closed spec fn module(&self) -> ParsedModule {
        *self.parsed_module
    }

    /// The module that the facts are gathered from.
    pub fn parsed_module(&self) -> (module: &'ast ParsedModule)
        ensures
            *module == self.module(),
    {
        self.parsed_module
    }

    /// Creates an empty context for `parsed_module`.
    pub fn new(parsed_module: &'ast ParsedModule) -> (context: Self)
        ensures
            context@ == ContextView::empty(),
            context.module() == *parsed_module,
    {
        let context = Self {
            parsed_module,
            function_definitions: Vec::new(),
            function_calls: Vec::new(),
        };
        assert(context@.definitions =~= Seq::empty());
        assert(context@.call_sites =~= Seq::empty());
        context
    }

    /// Records the definition `def` under its name. A definition recorded
    /// earlier under the same name is replaced.
    pub fn insert_definition(&mut self, def: &'ast FunctionDefinition)
        requires
            old(self)@.wf(),
        ensures
            final(self)@ == old(self)@.define(*def),
            final(self)@.wf(),
            final(self).module() == old(self).module(),
    {
        let mut i: usize = 0;
        while i < self.function_definitions.len()
            invariant
                i <= self.function_definitions.len(),
                *self == *old(self),
                self@.wf(),
                forall|k: int| 0 <= k < i ==> (#[trigger] self@.definitions[k]).name@ != def.name@,
            decreases self.function_definitions.len() - i,
        {
            if str_equal(self.function_definitions[i].name.as_str(), def.name.as_str()) {
                proof {
                    let defs = old(self)@.definitions;
                    assert(defs[i as int].name@ == def.name@);
                    lemma_position_of(defs, i as int);
                }
                self.function_definitions.set(i, def);
                assert(self@.definitions =~= old(self)@.definitions.update(i as int, *def));
                assert(self@.call_sites =~= old(self)@.call_sites);
                return ;
            }
            i = i + 1;
        }
        assert(!declares(old(self)@.definitions, def.name@));
        self.function_definitions.push(def);
        assert(self@.definitions =~= old(self)@.definitions.push(*def));
        assert(self@.call_sites =~= old(self)@.call_sites);
    }

    /// Records `call` as a call of the function named `callee`.
    pub fn record_call(&mut self, callee: String, call: &'ast CallExpression)
        ensures
            final(self)@ == old(self)@.record(callee@, *call),
            final(self).module() == old(self).module(),
    {
        self.function_calls.push(CallSite { callee, call });
        assert(self@.call_sites =~= old(self)@.call_sites.push(
            CallSiteView { callee: callee@, call: *call },
        ));
        assert(self@.definitions =~= old(self)@.definitions);
    }

    /// The number of recorded definitions.
    pub fn definition_count(&self) -> (count: usize)
        ensures
            count == self@.definitions.len(),
    {
        self.function_definitions.len()
    }

    /// The recorded definition at position `index`.
    pub fn definition_at(&self, index: usize) -> (def: &'ast FunctionDefinition)
        requires
            index < self@.definitions.len(),
        ensures
            *def == self@.definitions[index as int],
    {
        self.function_definitions[index]
    }

    /// The recorded definition of the function named `name`, if there is one.
    pub fn get_definition(&self, name: &str) -> (found: Option<&'ast FunctionDefinition>)
        requires
            self@.wf(),
        ensures
            found is Some <==> self@.function_definitions().contains_key(name@),
            found matches Some(def) ==> *def == self@.function_definitions()[name@],
    {
        let mut i: usize = 0;
        while i < self.function_definitions.len()
            invariant
                i <= self.function_definitions.len(),
                forall|k: int| 0 <= k < i ==> (#[trigger] self@.definitions[k]).name@ != name@,
                self@.wf(),
            decreases self.function_definitions.len() - i,
        {
            if str_equal(self.function_definitions[i].name.as_str(), name) {
                proof {
                    let defs = self@.definitions;
                    assert(defs[i as int].name@ == name@);
                    lemma_position_of(defs, i as int);
                }
                return Some(self.function_definitions[i]);
            }
            i = i + 1;
        }
        assert(!declares(self@.definitions, name@));
        None
    }

    /// The number of recorded calls.
    pub fn call_count(&self) -> (count: usize)
        ensures
            count == self@.call_sites.len(),
    {
        self.function_calls.len()
    }

    /// Tells whether some call is recorded under `key`.
    pub fn contains_call(&self, key: &str) -> (found: bool)
        ensures
            found == self@.is_called(key@),
            found == self@.function_calls().contains_key(key@),
    {
        let mut i: usize = 0;
        while i < self.function_calls.len()
            invariant
                i <= self.function_calls.len(),
                forall|k: int| 0 <= k < i ==> (#[trigger] self@.call_sites[k]).callee != key@,
            decreases self.function_calls.len() - i,
        {
            if str_equal(self.function_calls[i].callee.as_str(), key) {
                assert(self@.call_sites[i as int].callee == key@);
                return true;
            }
            i = i + 1;
        }
        false
    }

    /// The calls recorded under `key`, in the order in which they were
    /// recorded.
    pub fn calls_to(&self, key: &str) -> (calls: Vec<&'ast CallExpression>)
        ensures
            calls@.map_values(|c: &CallExpression| *c) == calls_under(self@.call_sites, key@),
    {
        let mut calls: Vec<&'ast CallExpression> = Vec::new();
        let mut i: usize = 0;
        assert(self@.call_sites.take(0) =~= Seq::empty());
        while i < self.function_calls.len()
            invariant
                i <= self.function_calls.len(),
                calls@.map_values(|c: &CallExpression| *c) =~= calls_under(
                    self@.call_sites.take(i as int),
                    key@,
                ),
            decreases self.function_calls.len() - i,
        {
            assert(self@.call_sites.take(i + 1).drop_last() =~= self@.call_sites.take(i as int));
            if str_equal(self.function_calls[i].callee.as_str(), key) {
                calls.push(self.function_calls[i].call);
            }
            i = i + 1;
        }
        assert(self@.call_sites.take(i as int) =~= self@.call_sites);
        calls
    }
}

} // verus!
