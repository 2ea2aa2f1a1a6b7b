//! The rule that reports functions which are declared but never called.
//!
//! A function counts as used when it is public, since code outside the
//! module may call it, or when some recorded call is keyed by its name.

use crate::ast::ast_context::{distinct_names, AstContext, ContextView};
use crate::ast::tree::{FunctionDefinition, ItemVisibility};
use crate::diagnostics::lint::{lint_views, Lint, LintView, Severity};
use crate::lints::lint_rule::LintRule;
use vstd::prelude::*;
use vstd::string::StringExecFns;

verus! {

/// The description of the finding about the function named `name`.
pub open spec fn unused_message(name: Seq<char>) -> Seq<char> {
    "Function '"@ + name + "' is unused"@
}

/// Whether the rule reports `def` on the facts `context`: the function is
/// not public and no call is recorded under its name.
pub open spec fn is_unused(context: ContextView, def: FunctionDefinition) -> bool {
    def.visibility != ItemVisibility::Public && !context.is_called(def.name@)
}

/// The finding that the rule reports about `def`.
pub open spec fn finding(def: FunctionDefinition) -> LintView {
    LintView {
        name: "unused-function"@,
        severity: Severity::Warning,
        description: unused_message(def.name@),
        span: Some(def.span),
    }
}

/// The findings about the unused functions among `defs`, in the order of
/// `defs`.
pub open spec fn unused_findings(
    context: ContextView,
    defs: Seq<FunctionDefinition>,
) -> Seq<LintView>
    decreases defs.len(),
{
    if defs.len() == 0 {
        Seq::empty()
    } else if is_unused(context, defs.last()) {
        unused_findings(context, defs.drop_last()).push(finding(defs.last()))
    } else {
        unused_findings(context, defs.drop_last())
    }
}

/// Detects functions that are defined but never used.
#[derive(Default)]
pub struct UnusedFunction;

impl UnusedFunction {
    /// Builds the description of the finding about the function `name`.
    pub fn description(name: &str) -> (text: String)
        ensures
            text@ == unused_message(name@),
    {
        let mut text = String::from_str("Function '");
        text.append(name);
        text.append("' is unused");
        text
    }

    /// A new, independent instance of the rule, boxed so that it can be
    /// registered with an analyzer.
    pub fn boxed_clone(&self) -> (rule: Box<UnusedFunction>)
        ensures
            *rule == *self,
            rule.rule_name() == self.rule_name(),
            forall|context: ContextView| #[trigger] rule.findings(context) == self.findings(context),
    {
        Box::new(UnusedFunction)
    }
}

impl LintRule for UnusedFunction {
    open spec fn rule_name(&self) -> Seq<char> {
        "unused-function"@
    }

    open spec fn findings(&self, context: ContextView) -> Seq<LintView> {
        unused_findings(context, context.definitions)
    }

    fn name(&self) -> (name: &'static str) {
        "unused-function"
    }

    fn lint(&self, context: &AstContext) -> (lints: Vec<Lint>) {
        let mut lints: Vec<Lint> = Vec::new();
        let count = context.definition_count();
        let mut i: usize = 0;
        assert(lint_views(lints@) =~= unused_findings(context@, context@.definitions.take(0)));
        while i < count
            invariant
                i <= count,
                count == context@.definitions.len(),
                lint_views(lints@) == unused_findings(context@, context@.definitions.take(i as int)),
            decreases count - i,
        {
            let function = context.definition_at(i);
            assert(context@.definitions.take(i + 1).drop_last() =~= context@.definitions.take(
                i as int,
            ));
            if function.visibility != ItemVisibility::Public && !context.contains_call(
                function.name.as_str(),
            ) {
                let ghost before = lints@;
                lints.push(
                    Lint {
                        name: self.name(),
                        severity: Severity::Warning,
                        description: UnusedFunction::description(function.name.as_str()),
                        span: Some(function.span),
                    },
                );
                assert(lint_views(lints@) =~= lint_views(before).push(finding(*function)));
            }
            i = i + 1;
        }
        assert(context@.definitions.take(i as int) =~= context@.definitions);
        lints
    }
}

/// Some lint of `lints` is a finding about the function named `name`.
pub open spec fn reports(lints: Seq<LintView>, name: Seq<char>) -> bool {
    exists|k: int| 0 <= k < lints.len() && (#[trigger] lints[k]).description == unused_message(name)
}

/// The description of a finding tells which function it is about: two names
/// with the same description are the same name.
pub proof fn lemma_message_names_function(a: Seq<char>, b: Seq<char>)
    requires
        unused_message(a) == unused_message(b),
    ensures
        a == b,
{
    let head = "Function '"@;
    let tail = "' is unused"@;
    assert(unused_message(a).len() == head.len() + a.len() + tail.len());
    assert(unused_message(b).len() == head.len() + b.len() + tail.len());
    assert(a =~= unused_message(a).subrange(head.len() as int, (head.len() + a.len()) as int));
    assert(b =~= unused_message(b).subrange(head.len() as int, (head.len() + b.len()) as int));
}

/// `lint` is the finding about some unused function of `defs`.
spec fn from_unused(context: ContextView, defs: Seq<FunctionDefinition>, lint: LintView) -> bool {
    exists|i: int|
        0 <= i < defs.len() && is_unused(context, #[trigger] defs[i]) && lint == finding(defs[i])
}

/// `lints` holds the finding about `def`.
spec fn holds_finding(lints: Seq<LintView>, def: FunctionDefinition) -> bool {
    exists|k: int| 0 <= k < lints.len() && #[trigger] lints[k] == finding(def)
}

/// What the findings about `defs` are made of: each finding is about an
/// unused function of `defs`, each unused function of `defs` has a finding,
/// and no two findings have the same description.
proof fn lemma_unused_findings(context: ContextView, defs: Seq<FunctionDefinition>)
    requires
        distinct_names(defs),
    ensures
        forall|k: int|
            0 <= k < unused_findings(context, defs).len() ==> from_unused(
                context,
                defs,
                #[trigger] unused_findings(context, defs)[k],
            ),
        forall|i: int|
            0 <= i < defs.len() && is_unused(context, #[trigger] defs[i]) ==> holds_finding(
                unused_findings(context, defs),
                defs[i],
            ),
        forall|j: int, k: int|
            0 <= j < k < unused_findings(context, defs).len() ==> (#[trigger] unused_findings(
                context,
                defs,
            )[j]).description != (#[trigger] unused_findings(context, defs)[k]).description,
    decreases defs.len(),
{
    if defs.len() > 0 {
        let rest = defs.drop_last();
        let last = defs.last();
        let found = unused_findings(context, rest);
        let all = unused_findings(context, defs);
        assert(distinct_names(rest)) by {
            assert forall|i: int, j: int| 0 <= i < j < rest.len() implies (#[trigger] rest[i]).name@
                != (#[trigger] rest[j]).name@ by {
                assert(rest[i] == defs[i] && rest[j] == defs[j]);
            }
        }
        lemma_unused_findings(context, rest);
        assert forall|k: int| 0 <= k < all.len() implies from_unused(
            context,
            defs,
            #[trigger] all[k],
        ) by {
            if k < found.len() {
                assert(all[k] == found[k]);
                assert(from_unused(context, rest, found[k]));
                let i = choose|i: int|
                    0 <= i < rest.len() && is_unused(context, #[trigger] rest[i]) && found[k]
                        == finding(rest[i]);
                assert(defs[i] == rest[i]);
            } else {
                assert(defs[defs.len() - 1] == last);
            }
        }
        assert forall|i: int| 0 <= i < defs.len() && is_unused(
            context,
            #[trigger] defs[i],
        ) implies holds_finding(all, defs[i]) by {
            if i < rest.len() {
                assert(defs[i] == rest[i]);
                assert(holds_finding(found, rest[i]));
                let k = choose|k: int| 0 <= k < found.len() && #[trigger] found[k] == finding(rest[i]);
                assert(all[k] == finding(defs[i]));
            } else {
                assert(all[all.len() - 1] == finding(defs[i]));
            }
        }
        assert forall|j: int, k: int| 0 <= j < k < all.len() implies (#[trigger] all[j]).description != (
        #[trigger] all[k]).description by {
            if k < found.len() {
                assert(all[j] == found[j] && all[k] == found[k]);
            } else {
                assert(all[j] == found[j]);
                assert(from_unused(context, rest, found[j]));
                let i = choose|i: int|
                    0 <= i < rest.len() && is_unused(context, #[trigger] rest[i]) && found[j]
                        == finding(rest[i]);
                assert(defs[i] == rest[i]);
                assert(defs[i].name@ != defs[defs.len() - 1].name@);
                if all[j].description == all[k].description {
                    lemma_message_names_function(rest[i].name@, last.name@);
                }
            }
        }
    }
}

/// Public exemption: whatever calls are recorded, the rule reports no
/// finding about a function that is public.
pub proof fn lemma_public_function_is_exempt(context: ContextView, def: FunctionDefinition)
    requires
        context.wf(),
        context.definitions.contains(def),
        def.visibility == ItemVisibility::Public,
    ensures
        !reports(UnusedFunction.findings(context), def.name@),
{
    lemma_used_function_is_not_reported(context, def);
}

/// Call suppression: the rule reports no finding about a function under
/// whose name some call is recorded.
pub proof fn lemma_called_function_is_not_reported(context: ContextView, name: Seq<char>)
    requires
        context.wf(),
        context.is_called(name),
    ensures
        !reports(UnusedFunction.findings(context), name),
{
    let defs = context.definitions;
    let lints = unused_findings(context, defs);
    lemma_unused_findings(context, defs);
    if reports(lints, name) {
        let k = choose|k: int|
            0 <= k < lints.len() && (#[trigger] lints[k]).description == unused_message(name);
        assert(from_unused(context, defs, lints[k]));
        let i = choose|i: int|
            0 <= i < defs.len() && is_unused(context, #[trigger] defs[i]) && lints[k] == finding(
                defs[i],
            );
        lemma_message_names_function(defs[i].name@, name);
    }
}

/// The rule reports no finding about a recorded function that is public or
/// called.
proof fn lemma_used_function_is_not_reported(context: ContextView, def: FunctionDefinition)
    requires
        context.wf(),
        context.definitions.contains(def),
        !is_unused(context, def),
    ensures
        !reports(UnusedFunction.findings(context), def.name@),
{
    let defs = context.definitions;
    let lints = unused_findings(context, defs);
    lemma_unused_findings(context, defs);
    let at = choose|at: int| 0 <= at < defs.len() && defs[at] == def;
    if reports(lints, def.name@) {
        let k = choose|k: int|
            0 <= k < lints.len() && (#[trigger] lints[k]).description == unused_message(def.name@);
        assert(from_unused(context, defs, lints[k]));
        let i = choose|i: int|
            0 <= i < defs.len() && is_unused(context, #[trigger] defs[i]) && lints[k] == finding(
                defs[i],
            );
        lemma_message_names_function(defs[i].name@, def.name@);
        if i < at {
            assert(defs[i].name@ != defs[at].name@);
        }
        if at < i {
            assert(defs[at].name@ != defs[i].name@);
        }
    }
}

/// The lint at position `k` of `lints` is the finding about `def`, and no
/// other lint of `lints` is a finding about a function of that name.
pub open spec fn is_sole_finding(lints: Seq<LintView>, def: FunctionDefinition, k: int) -> bool {
    &&& 0 <= k < lints.len()
    &&& lints[k] == finding(def)
    &&& forall|j: int|
        0 <= j < lints.len() && (#[trigger] lints[j]).description == unused_message(def.name@)
            ==> j == k
}

/// Unreferenced detection: about a recorded function that is not public
/// and under whose name no call is recorded, the rule reports exactly one
/// finding. It is a warning of this rule, its description holds the name of
/// the function, and its span is the span of the definition.
pub proof fn lemma_unreferenced_function_is_reported_once(
    context: ContextView,
    def: FunctionDefinition,
)
    requires
        context.wf(),
        context.definitions.contains(def),
        def.visibility != ItemVisibility::Public,
        !context.is_called(def.name@),
    ensures
        exists|k: int| is_sole_finding(UnusedFunction.findings(context), def, k),
        finding(def).name == UnusedFunction.rule_name(),
        finding(def).severity == Severity::Warning,
        finding(def).description == "Function '"@ + def.name@ + "' is unused"@,
        finding(def).span == Some(def.span),
{
    let defs = context.definitions;
    let lints = unused_findings(context, defs);
    lemma_unused_findings(context, defs);
    let at = choose|at: int| 0 <= at < defs.len() && defs[at] == def;
    assert(is_unused(context, defs[at]));
    assert(holds_finding(lints, defs[at]));
    let k = choose|k: int| 0 <= k < lints.len() && #[trigger] lints[k] == finding(defs[at]);
    assert forall|j: int|
        0 <= j < lints.len() && (#[trigger] lints[j]).description == unused_message(
            def.name@,
        ) implies j == k by {
        if j < k {
            assert(lints[j].description != lints[k].description);
        }
        if k < j {
            assert(lints[k].description != lints[j].description);
        }
    }
    assert(is_sole_finding(UnusedFunction.findings(context), def, k));
}

} // verus!
